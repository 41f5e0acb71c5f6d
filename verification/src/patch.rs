//! The patch container and its two operations: parsing the binary
//! container and replaying its instructions against an original buffer.
//!
//! The container layout is: an 8-byte tag, then three 8-byte
//! signed-magnitude lengths (compressed control block, compressed diff
//! block, target length), then the three bzip2 blocks — control and diff
//! bounded by their lengths, the extra block running to the end of the
//! stream. Replay walks the instructions in order, keeping one signed
//! cursor into the original and one cursor into each of the diff and
//! extra streams.

use vstd::prelude::*;

use crate::bz::{bounded_block_spec, bunzip_of, read_bzip_block, read_bzip_to_end};
use crate::codec::{le64_value, read_positive_le_i64};
use crate::control::{control_block_spec, read_control_block, Control};
use crate::error::Error;

verus! {

/// The 8-byte format tag, `b"BSDIFF40"`.
pub open spec fn magic() -> Seq<u8> {
    seq![66u8, 83u8, 68u8, 73u8, 70u8, 70u8, 52u8, 48u8]
}

/// The parsed container: target length, instruction sequence in replay
/// order, and the two decompressed payload streams.
#[verifier::ext_equal]
pub struct PatchModel {
    pub new_size: int,
    pub control: Seq<Control>,
    pub diff: Seq<u8>,
    pub extra: Seq<u8>,
}

/// What container bytes parse to: the model, or the first error in
/// header order — tag, the three lengths, then the three blocks.
pub open spec fn parse_spec(data: Seq<u8>) -> Result<PatchModel, Error> {
    if data.len() < 8 {
        Err(Error::ShortRead)
    } else if data.subrange(0, 8) != magic() {
        Err(Error::BadMagic)
    } else if data.len() < 32 {
        Err(Error::ShortRead)
    } else {
        let lc = le64_value(data.subrange(8, 16));
        let ld = le64_value(data.subrange(16, 24));
        let ns = le64_value(data.subrange(24, 32));
        if lc >= 0x8000_0000_0000_0000 {
            Err(Error::InvalidLength)
        } else if ld >= 0x8000_0000_0000_0000 {
            Err(Error::InvalidLength)
        } else if ns >= 0x8000_0000_0000_0000 {
            Err(Error::InvalidLength)
        } else if ns > usize::MAX {
            Err(Error::IntegerOverflow)
        } else {
            match control_block_spec(data, 32, lc) {
                Err(e) => Err(e),
                Ok(ctrl) => match bounded_block_spec(data, 32 + lc, ld) {
                    Err(e) => Err(e),
                    Ok(diff) => match bunzip_of(data.subrange(32 + lc + ld, data.len() as int)) {
                        None => Err(Error::CorruptBlock),
                        Some(extra) => Ok(
                            PatchModel { new_size: ns, control: ctrl, diff, extra },
                        ),
                    },
                },
            }
        }
    }
}

/// Byte-wise addition modulo 256: unsigned 8-bit overflow wraps silently.
pub open spec fn wrap_add(a: u8, b: u8) -> u8 {
    ((a + b) % 256) as u8
}

/// Replays instructions from three cursors: `pos` into the original
/// (signed — seeks may take it out of range, which only matters when a
/// copy then reads there), `dpos` into the diff stream, `epos` into the
/// extra stream. Yields the emitted bytes and the three final cursors,
/// or the first failure: `ShortRead` where a copy reaches outside the
/// original, `StreamExhausted` where the diff or extra stream runs out.
pub open spec fn replay_steps(
    ctrl: Seq<Control>,
    orig: Seq<u8>,
    diff: Seq<u8>,
    extra: Seq<u8>,
    pos: int,
    dpos: int,
    epos: int,
) -> Result<(Seq<u8>, int, int, int), Error>
    decreases ctrl.len(),
{
    if ctrl.len() == 0 {
        Ok((Seq::empty(), pos, dpos, epos))
    } else {
        let c = ctrl[0];
        if c.diff_amount > 0 && !(0 <= pos && pos + c.diff_amount <= orig.len()) {
            Err(Error::ShortRead)
        } else if dpos + c.diff_amount > diff.len() {
            Err(Error::StreamExhausted)
        } else if epos + c.extra_amount > extra.len() {
            Err(Error::StreamExhausted)
        } else {
            let chunk = Seq::new(
                c.diff_amount as nat,
                |k: int| wrap_add(orig[pos + k], diff[dpos + k]),
            ) + extra.subrange(epos, epos + c.extra_amount);
            match replay_steps(
                ctrl.drop_first(),
                orig,
                diff,
                extra,
                pos + c.diff_amount + c.seek,
                dpos + c.diff_amount,
                epos + c.extra_amount,
            ) {
                Ok(rest) => Ok((chunk + rest.0, rest.1, rest.2, rest.3)),
                Err(e) => Err(e),
            }
        }
    }
}

/// A full replay from the start of every stream. Both payload streams
/// must be consumed exactly; bytes left over in either signal a corrupt
/// or mismatched patch and fail with `StreamExhausted`.
pub open spec fn replay(ctrl: Seq<Control>, orig: Seq<u8>, diff: Seq<u8>, extra: Seq<u8>) -> Result<
    Seq<u8>,
    Error,
> {
    match replay_steps(ctrl, orig, diff, extra, 0, 0, 0) {
        Ok(r) => if r.2 == diff.len() && r.3 == extra.len() {
            Ok(r.0)
        } else {
            Err(Error::StreamExhausted)
        },
        Err(e) => Err(e),
    }
}

/// A parsed patch, immutable after parse: the target length, the decoded
/// instructions, and the two decompressed payload streams.
pub struct Bsdiff4 {
    new_size: usize,
    control: Vec<Control>,
    diff: Vec<u8>,
    extra: Vec<u8>,
}

impl View for Bsdiff4 {
    type V = PatchModel;

    closed spec fn view(&self) -> PatchModel {
        PatchModel {
            new_size: self.new_size as int,
            control: self.control@,
            diff: self.diff@,
            extra: self.extra@,
        }
    }
}

impl Bsdiff4 {
    /// The instruction list is a whole number of 24-byte records of a
    /// buffer, so it cannot come within a factor of 24 of `usize::MAX`.
    pub open spec fn wf(&self) -> bool {
        24 * self@.control.len() <= usize::MAX
    }

    /// Parses a complete container held in `data`.
    pub fn read(data: &[u8]) -> (r: Result<Bsdiff4, Error>)
        ensures
            match r {
                Ok(c) => parse_spec(data@) == Ok::<PatchModel, Error>(c@) && c.wf(),
                Err(e) => parse_spec(data@) == Err::<PatchModel, Error>(e),
            },
    {
        if data.len() < 8 {
            return Err(Error::ShortRead);
        }
        let tag_ok: bool = data[0] == 66 && data[1] == 83 && data[2] == 68 && data[3] == 73
            && data[4] == 70 && data[5] == 70 && data[6] == 52 && data[7] == 48;
        proof {
            let s = data@.subrange(0, 8);
            assert(forall|i: int| 0 <= i < 8 ==> s[i] == data@[i]);
            if tag_ok {
                assert(s =~= magic());
            } else {
                assert(s != magic());
            }
        }
        if !tag_ok {
            return Err(Error::BadMagic);
        }
        if data.len() < 32 {
            return Err(Error::ShortRead);
        }
        let len_control = match read_positive_le_i64(data, 8) {
            Ok(v) => v,
            Err(e) => {
                return Err(e);
            },
        };
        let len_diff = match read_positive_le_i64(data, 16) {
            Ok(v) => v,
            Err(e) => {
                return Err(e);
            },
        };
        let new_size64 = match read_positive_le_i64(data, 24) {
            Ok(v) => v,
            Err(e) => {
                return Err(e);
            },
        };
        if new_size64 > usize::MAX as u64 {
            return Err(Error::IntegerOverflow);
        }
        let new_size = new_size64 as usize;
        let control = match read_control_block(data, 32, len_control) {
            Ok(v) => v,
            Err(e) => {
                return Err(e);
            },
        };
        let pos1: usize = 32 + len_control as usize;
        let diff = match read_bzip_block(data, pos1, len_diff) {
            Ok(v) => v,
            Err(e) => {
                return Err(e);
            },
        };
        let pos2: usize = pos1 + len_diff as usize;
        let extra = match read_bzip_to_end(data, pos2) {
            Ok(v) => v,
            Err(e) => {
                return Err(e);
            },
        };
        let patch = Bsdiff4 { new_size, control, diff, extra };
        proof {
            assert(parse_spec(data@)->Ok_0 =~= patch@);
        }
        Ok(patch)
    }

    /// Replays this patch against `original`, appending the reconstructed
    /// bytes to `new`. On failure, bytes already appended stay appended;
    /// the error says which stream fell short.
    pub fn apply(&self, original: &[u8], new: &mut Vec<u8>) -> (r: Result<(), Error>)
        requires
            self.wf(),
        ensures
            match r {
                Ok(_) => ({
                    let res = replay(self@.control, original@, self@.diff, self@.extra);
                    res is Ok && final(new)@ == old(new)@ + res->Ok_0
                }),
                Err(e) => replay(self@.control, original@, self@.diff, self@.extra) == Err::<
                    Seq<u8>,
                    Error,
                >(e),
            },
    {
        let ghost ctrl = self@.control;
        let ghost dv = self@.diff;
        let ghost ev = self@.extra;
        let ghost base = new@;
        let ghost mut produced: Seq<u8> = Seq::empty();
        let n: usize = self.control.len();
        let mut pos: i128 = 0;
        let mut dpos: usize = 0;
        let mut epos: usize = 0;
        let mut idx: usize = 0;
        proof {
            assert(ctrl.skip(0) =~= ctrl);
            assert(base + produced =~= base);
        }
        while idx < n
            invariant
                self.wf(),
                ctrl == self@.control,
                dv == self@.diff,
                ev == self@.extra,
                base == old(new)@,
                n == ctrl.len(),
                idx <= n,
                dpos <= dv.len(),
                epos <= ev.len(),
                -(idx as int * 0x8000_0000_0000_0000) <= pos as int,
                pos as int <= dpos as int + idx as int * 0x8000_0000_0000_0000,
                new@ == base + produced,
                (match replay_steps(
                    ctrl.skip(idx as int),
                    original@,
                    dv,
                    ev,
                    pos as int,
                    dpos as int,
                    epos as int,
                ) {
                    Ok(rest) => replay_steps(ctrl, original@, dv, ev, 0, 0, 0) == Ok::<
                        (Seq<u8>, int, int, int),
                        Error,
                    >((produced + rest.0, rest.1, rest.2, rest.3)),
                    Err(e) => replay_steps(ctrl, original@, dv, ev, 0, 0, 0) == Err::<
                        (Seq<u8>, int, int, int),
                        Error,
                    >(e),
                }),
            decreases n - idx,
        {
            let c = self.control[idx];
            let ghost t = ctrl.skip(idx as int);
            proof {
                assert(t.len() == n - idx);
                assert(t[0] == ctrl[idx as int]);
                assert(t.drop_first() =~= ctrl.skip(idx as int + 1));
            }
            let copy: u64 = c.diff_amount;
            let ins: u64 = c.extra_amount;
            let olen: usize = original.len();
            if copy > 0 && (pos < 0 || copy as i128 > olen as i128 - pos) {
                return Err(Error::ShortRead);
            }
            let dlen: usize = self.diff.len();
            if copy > (dlen - dpos) as u64 {
                return Err(Error::StreamExhausted);
            }
            let elen: usize = self.extra.len();
            if ins > (elen - epos) as u64 {
                return Err(Error::StreamExhausted);
            }
            let ghost chunk = Seq::new(
                c.diff_amount as nat,
                |k: int| wrap_add(original@[pos as int + k], dv[dpos as int + k]),
            ) + ev.subrange(epos as int, epos as int + c.extra_amount as int);
            let copy_us: usize = copy as usize;
            let ins_us: usize = ins as usize;
            let ghost nc0 = new@;
            if copy_us > 0 {
                let p: usize = pos as usize;
                let mut j: usize = 0;
                while j < copy_us
                    invariant
                        j <= copy_us,
                        p + copy_us <= original@.len(),
                        original@.len() <= usize::MAX,
                        dpos + copy_us <= dv.len(),
                        dv.len() <= usize::MAX,
                        dv == self@.diff,
                        new@ == nc0 + Seq::new(
                            j as nat,
                            |k: int| wrap_add(original@[p + k], dv[dpos + k]),
                        ),
                    decreases copy_us - j,
                {
                    let a: u8 = original[p + j];
                    let b: u8 = self.diff[dpos + j];
                    let s: u8 = (((a as u16) + (b as u16)) % 256) as u8;
                    new.push(s);
                    proof {
                        assert(nc0 + Seq::new(
                            (j + 1) as nat,
                            |k: int| wrap_add(original@[p + k], dv[dpos + k]),
                        ) =~= (nc0 + Seq::new(
                            j as nat,
                            |k: int| wrap_add(original@[p + k], dv[dpos + k]),
                        )).push(wrap_add(original@[p + j], dv[dpos + j])));
                    }
                    j = j + 1;
                }
            }
            match copy_exact(self.extra.as_slice(), epos, ins, new) {
                Ok(_) => {},
                Err(_) => {
                    // unreachable: the extra-stream bound was checked above
                    return Err(Error::StreamExhausted);
                },
            }
            proof {
                assert(Seq::new(
                    c.diff_amount as nat,
                    |k: int| wrap_add(original@[pos as int + k], dv[dpos as int + k]),
                ) =~= Seq::new(
                    copy_us as nat,
                    |k: int| wrap_add(original@[pos as int + k], dv[dpos + k]),
                ));
                assert(new@ =~= nc0 + chunk);
            }
            let old_pos: i128 = pos;
            pos = pos + copy as i128 + c.seek as i128;
            dpos = dpos + copy_us;
            epos = epos + ins_us;
            proof {
                let t2 = ctrl.skip(idx as int + 1);
                assert(replay_steps(t, original@, dv, ev, old_pos as int, (dpos - copy_us) as int, (
                epos - ins_us) as int) == (match replay_steps(
                    t2,
                    original@,
                    dv,
                    ev,
                    pos as int,
                    dpos as int,
                    epos as int,
                ) {
                    Ok(rest) => Ok::<(Seq<u8>, int, int, int), Error>(
                        (chunk + rest.0, rest.1, rest.2, rest.3),
                    ),
                    Err(e) => Err::<(Seq<u8>, int, int, int), Error>(e),
                }));
                let produced0 = produced;
                produced = produced + chunk;
                assert(new@ =~= base + produced);
                match replay_steps(t2, original@, dv, ev, pos as int, dpos as int, epos as int) {
                    Ok(rest) => {
                        assert(produced0 + (chunk + rest.0) =~= produced + rest.0);
                    },
                    Err(e) => {},
                }
            }
            idx = idx + 1;
        }
        proof {
            assert(ctrl.skip(idx as int).len() == 0);
            assert(produced + Seq::<u8>::empty() =~= produced);
        }
        let dlen: usize = self.diff.len();
        let elen: usize = self.extra.len();
        if dpos == dlen && epos == elen {
            Ok(())
        } else {
            Err(Error::StreamExhausted)
        }
    }

    /// Reconstructs the whole target in a fresh buffer pre-sized to the
    /// container's target length.
    pub fn apply_to_slice(&self, original: &[u8]) -> (r: Result<Vec<u8>, Error>)
        requires
            self.wf(),
        ensures
            match r {
                Ok(v) => replay(self@.control, original@, self@.diff, self@.extra) == Ok::<
                    Seq<u8>,
                    Error,
                >(v@),
                Err(e) => replay(self@.control, original@, self@.diff, self@.extra) == Err::<
                    Seq<u8>,
                    Error,
                >(e),
            },
    {
        let mut new: Vec<u8> = Vec::with_capacity(self.new_size);
        match self.apply(original, &mut new) {
            Ok(_) => Ok(new),
            Err(e) => Err(e),
        }
    }
}

/// Appends to `out` exactly `amount` bytes of `src` starting at `from`,
/// or fails with `ShortRead`, leaving `out` untouched, where `src` holds
/// fewer bytes than that.
pub fn copy_exact(src: &[u8], from: usize, amount: u64, out: &mut Vec<u8>) -> (r: Result<
    (),
    Error,
>)
    ensures
        match r {
            Ok(_) => from + amount <= src@.len() && final(out)@ == old(out)@ + src@.subrange(
                from as int,
                from as int + amount as int,
            ),
            Err(e) => from + amount > src@.len() && e == Error::ShortRead && final(out)@ == old(
                out,
            )@,
        },
{
    let len: usize = src.len();
    if from > len || amount > (len - from) as u64 {
        return Err(Error::ShortRead);
    }
    let amt: usize = amount as usize;
    let mut j: usize = 0;
    proof {
        assert(old(out)@ + src@.subrange(from as int, from as int) =~= old(out)@);
    }
    while j < amt
        invariant
            j <= amt,
            from + amt <= src@.len(),
            src@.len() <= usize::MAX,
            out@ == old(out)@ + src@.subrange(from as int, from as int + j as int),
        decreases amt - j,
    {
        let b: u8 = src[from + j];
        out.push(b);
        proof {
            assert(old(out)@ + src@.subrange(from as int, from as int + j as int + 1) =~= (old(
                out,
            )@ + src@.subrange(from as int, from as int + j as int)).push(src@[from + j]));
        }
        j = j + 1;
    }
    Ok(())
}

/// Sum of the copy lengths of an instruction sequence.
pub open spec fn total_copy(ctrl: Seq<Control>) -> int
    decreases ctrl.len(),
{
    if ctrl.len() == 0 {
        0
    } else {
        ctrl[0].diff_amount + total_copy(ctrl.drop_first())
    }
}

/// Sum of the insert lengths of an instruction sequence.
pub open spec fn total_insert(ctrl: Seq<Control>) -> int
    decreases ctrl.len(),
{
    if ctrl.len() == 0 {
        0
    } else {
        ctrl[0].extra_amount + total_insert(ctrl.drop_first())
    }
}

/// Net movement of the original-source cursor over an instruction
/// sequence: each instruction advances it by its copy length and then by
/// its seek delta, in order.
pub open spec fn total_advance(ctrl: Seq<Control>) -> int
    decreases ctrl.len(),
{
    if ctrl.len() == 0 {
        0
    } else {
        ctrl[0].diff_amount + ctrl[0].seek + total_advance(ctrl.drop_first())
    }
}

/// Replay accounting. A successful replay consumes exactly the
/// instructions' total copy bytes from the diff stream and total insert
/// bytes from the extra stream, emits exactly their sum, and leaves the
/// original cursor at the start position plus every copy length and seek
/// delta applied in order — in particular, seek deltas accumulate, so a
/// sequence of seeks leaves the cursor at the start plus their sum before
/// the next copy reads.
pub proof fn lemma_replay_steps_totals(
    ctrl: Seq<Control>,
    orig: Seq<u8>,
    diff: Seq<u8>,
    extra: Seq<u8>,
    pos: int,
    dpos: int,
    epos: int,
)
    requires
        0 <= dpos <= diff.len(),
        0 <= epos <= extra.len(),
        replay_steps(ctrl, orig, diff, extra, pos, dpos, epos) is Ok,
    ensures
        ({
            let r = replay_steps(ctrl, orig, diff, extra, pos, dpos, epos)->Ok_0;
            r.0.len() == total_copy(ctrl) + total_insert(ctrl) && r.1 == pos + total_advance(ctrl)
                && r.2 == dpos + total_copy(ctrl) && r.2 <= diff.len() && r.3 == epos
                + total_insert(ctrl) && r.3 <= extra.len()
        }),
    decreases ctrl.len(),
{
    if ctrl.len() > 0 {
        let c = ctrl[0];
        lemma_replay_steps_totals(
            ctrl.drop_first(),
            orig,
            diff,
            extra,
            pos + c.diff_amount + c.seek,
            dpos + c.diff_amount,
            epos + c.extra_amount,
        );
    }
}

/// An instruction whose insert length exceeds what is left of the extra
/// stream fails the replay with `StreamExhausted` (its copy step
/// permitting); it never truncates silently.
pub proof fn lemma_insert_exhaustion(
    ctrl: Seq<Control>,
    orig: Seq<u8>,
    diff: Seq<u8>,
    extra: Seq<u8>,
    pos: int,
    dpos: int,
    epos: int,
)
    requires
        ctrl.len() > 0,
        ctrl[0].diff_amount == 0 || (0 <= pos && pos + ctrl[0].diff_amount <= orig.len()),
        dpos + ctrl[0].diff_amount <= diff.len(),
        epos + ctrl[0].extra_amount > extra.len(),
    ensures
        replay_steps(ctrl, orig, diff, extra, pos, dpos, epos) == Err::<
            (Seq<u8>, int, int, int),
            Error,
        >(Error::StreamExhausted),
{
}

/// A control sequence that demands more diff or extra bytes than the
/// streams hold from the start can never replay successfully.
pub proof fn lemma_stream_overrun(ctrl: Seq<Control>, orig: Seq<u8>, diff: Seq<u8>, extra: Seq<u8>)
    requires
        total_copy(ctrl) > diff.len() || total_insert(ctrl) > extra.len(),
    ensures
        replay(ctrl, orig, diff, extra) is Err,
{
    if replay_steps(ctrl, orig, diff, extra, 0, 0, 0) is Ok {
        lemma_replay_steps_totals(ctrl, orig, diff, extra, 0, 0, 0);
    }
}

/// A successful full replay accounts for both payload streams exactly:
/// the instructions consume every diff byte and every extra byte, and the
/// output holds one byte for each.
pub proof fn lemma_replay_accounts(ctrl: Seq<Control>, orig: Seq<u8>, diff: Seq<u8>, extra: Seq<
    u8,
>)
    requires
        replay(ctrl, orig, diff, extra) is Ok,
    ensures
        total_copy(ctrl) == diff.len(),
        total_insert(ctrl) == extra.len(),
        replay(ctrl, orig, diff, extra)->Ok_0.len() == diff.len() + extra.len(),
{
    lemma_replay_steps_totals(ctrl, orig, diff, extra, 0, 0, 0);
}

/// Parsing is a function of the container bytes: two parses of the same
/// bytes yield containers whose replay results coincide on every
/// original input.
pub proof fn lemma_parse_deterministic(
    data: Seq<u8>,
    c1: PatchModel,
    c2: PatchModel,
    orig: Seq<u8>,
)
    requires
        parse_spec(data) == Ok::<PatchModel, Error>(c1),
        parse_spec(data) == Ok::<PatchModel, Error>(c2),
    ensures
        replay(c1.control, orig, c1.diff, c1.extra) == replay(c2.control, orig, c2.diff, c2.extra),
{
}

/// A container whose first 8 bytes differ from the format tag fails with
/// `BadMagic`, whatever the remaining content.
pub proof fn lemma_bad_magic(data: Seq<u8>)
    requires
        data.len() >= 8,
        data.subrange(0, 8) != magic(),
    ensures
        parse_spec(data) == Err::<PatchModel, Error>(Error::BadMagic),
{
}

/// A header whose target-length field has the sign bit set over a
/// nonzero magnitude — a negative length — fails with `InvalidLength`,
/// whatever the two block-length fields hold; it is never read as
/// unsigned.
pub proof fn lemma_negative_target_length(data: Seq<u8>)
    requires
        data.len() >= 32,
        data.subrange(0, 8) == magic(),
        le64_value(data.subrange(24, 32)) > 0x8000_0000_0000_0000,
    ensures
        parse_spec(data) == Err::<PatchModel, Error>(Error::InvalidLength),
{
}

/// Replay decomposes over concatenation: running `a + b` is running `a`,
/// then running `b` from the three cursors `a` left behind. With the
/// accounting lemma this pins the cursor every instruction starts from:
/// the start position plus the preceding copy lengths and seek deltas.
pub proof fn lemma_replay_steps_append(
    a: Seq<Control>,
    b: Seq<Control>,
    orig: Seq<u8>,
    diff: Seq<u8>,
    extra: Seq<u8>,
    pos: int,
    dpos: int,
    epos: int,
)
    ensures
        replay_steps(a + b, orig, diff, extra, pos, dpos, epos) == (match replay_steps(
            a,
            orig,
            diff,
            extra,
            pos,
            dpos,
            epos,
        ) {
            Ok(r) => match replay_steps(b, orig, diff, extra, r.1, r.2, r.3) {
                Ok(r2) => Ok::<(Seq<u8>, int, int, int), Error>((r.0 + r2.0, r2.1, r2.2, r2.3)),
                Err(e) => Err::<(Seq<u8>, int, int, int), Error>(e),
            },
            Err(e) => Err::<(Seq<u8>, int, int, int), Error>(e),
        }),
    decreases a.len(),
{
    if a.len() == 0 {
        assert(a + b =~= b);
        match replay_steps(b, orig, diff, extra, pos, dpos, epos) {
            Ok(r2) => {
                assert(Seq::<u8>::empty() + r2.0 =~= r2.0);
            },
            Err(e) => {},
        }
    } else {
        let c = a[0];
        assert((a + b)[0] == c);
        assert((a + b).drop_first() =~= a.drop_first() + b);
        lemma_replay_steps_append(
            a.drop_first(),
            b,
            orig,
            diff,
            extra,
            pos + c.diff_amount + c.seek,
            dpos + c.diff_amount,
            epos + c.extra_amount,
        );
        if replay_steps(a, orig, diff, extra, pos, dpos, epos) is Ok {
            let r = replay_steps(a, orig, diff, extra, pos, dpos, epos)->Ok_0;
            match replay_steps(b, orig, diff, extra, r.1, r.2, r.3) {
                Ok(r2) => {
                    let chunk = Seq::new(
                        c.diff_amount as nat,
                        |k: int| wrap_add(orig[pos + k], diff[dpos + k]),
                    ) + extra.subrange(epos, epos + c.extra_amount);
                    let rest = replay_steps(
                        a.drop_first(),
                        orig,
                        diff,
                        extra,
                        pos + c.diff_amount + c.seek,
                        dpos + c.diff_amount,
                        epos + c.extra_amount,
                    )->Ok_0;
                    assert(chunk + (rest.0 + r2.0) =~= (chunk + rest.0) + r2.0);
                },
                Err(e) => {},
            }
        }
    }
}

/// A control block that decompresses to a byte length that is not a
/// multiple of the 24-byte record size fails with
/// `MalformedControlBlock`, whatever the lengths and blocks around it.
pub proof fn lemma_malformed_control_block(data: Seq<u8>, block: Seq<u8>)
    requires
        data.len() >= 32,
        data.subrange(0, 8) == magic(),
        le64_value(data.subrange(8, 16)) < 0x8000_0000_0000_0000,
        le64_value(data.subrange(16, 24)) < 0x8000_0000_0000_0000,
        le64_value(data.subrange(24, 32)) < 0x8000_0000_0000_0000,
        le64_value(data.subrange(24, 32)) <= usize::MAX,
        32 + le64_value(data.subrange(8, 16)) <= data.len(),
        bunzip_of(data.subrange(32, 32 + le64_value(data.subrange(8, 16)))) == Some(block),
        block.len() % 24 != 0,
    ensures
        parse_spec(data) == Err::<PatchModel, Error>(Error::MalformedControlBlock),
{
}

} // verus!
