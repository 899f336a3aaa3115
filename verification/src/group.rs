//! A `WIDTH`-lane parallel view over contiguous control bytes.

use vstd::prelude::*;

use crate::bitmask::BitMask;
use crate::DELETED;
use crate::EMPTY;

verus! {

/// The three legal control-byte states: `EMPTY`, `DELETED`, or `FULL`
/// carrying a 7-bit hash fragment (top bit clear).
pub open spec fn is_control_byte(b: u8) -> bool {
    b == EMPTY || b == DELETED || b < 0x80
}

/// Lanes of `s` that hold exactly the byte `b`.
pub open spec fn match_byte_set(s: Seq<u8>, b: u8) -> Set<int> {
    Set::new(|i: int| 0 <= i < s.len() && s[i] == b)
}

/// Lanes of `s` whose byte has the top bit set. Under the control-byte
/// encoding these are exactly the `EMPTY` and `DELETED` lanes.
pub open spec fn empty_or_deleted_set(s: Seq<u8>) -> Set<int> {
    Set::new(|i: int| 0 <= i < s.len() && s[i] >= 0x80)
}

/// Per-lane relabeling of the tombstone-reclamation pass:
/// `EMPTY` and `DELETED` become `EMPTY`, `FULL` becomes `DELETED`.
pub open spec fn convert_byte(b: u8) -> u8 {
    if b >= 0x80 {
        EMPTY
    } else {
        DELETED
    }
}

/// `convert_byte` applied to every lane.
pub open spec fn convert_seq(s: Seq<u8>) -> Seq<u8> {
    Seq::new(s.len(), |i: int| convert_byte(s[i]))
}

/// `s` with the bytes of `g` written over the region starting at `off`;
/// every byte outside that region is unchanged.
pub open spec fn store_seq(s: Seq<u8>, off: int, g: Seq<u8>) -> Seq<u8> {
    Seq::new(
        s.len(),
        |j: int|
            if off <= j < off + g.len() {
                g[j - off]
            } else {
                s[j]
            },
    )
}

/// Number of control bytes in a group: the scan width, the probe-sequence
/// alignment, and the table's minimum capacity-rounding unit.
pub const WIDTH: usize = 16;

/// An immutable view of exactly `WIDTH` contiguous control bytes, scanned
/// in parallel. A group has no identity beyond its bytes: it is created
/// fresh by a load and discarded after use.
pub struct Group([u8; 16]);

impl View for Group {
    type V = Seq<u8>;

    closed spec fn view(&self) -> Seq<u8> {
        self.0@
    }
}

impl Group {
    /// A full group of `EMPTY` bytes, suitable as the initial control
    /// buffer of a table with zero capacity.
    pub fn static_empty() -> (r: [u8; 16])
        ensures
            r@.len() == WIDTH,
            forall|i: int| 0 <= i < WIDTH ==> r@[i] == EMPTY,
    {
        [EMPTY; 16]
    }

    /// Every group holds exactly `WIDTH` bytes.
    pub proof fn lemma_width(&self)
        ensures
            self@.len() == WIDTH,
    {
    }

    /// Reads the `WIDTH` bytes of `src` starting at `offset` into a fresh
    /// group. No alignment is required of `offset`; the caller must hand
    /// in a buffer that really extends `WIDTH` bytes past `offset`.
    pub fn load(src: &[u8], offset: usize) -> (g: Group)
        requires
            offset + WIDTH <= src@.len(),
        ensures
            g@ == src@.subrange(offset as int, offset + WIDTH),
    {
        let n: usize = src.len();
        let mut out: [u8; 16] = [0u8; 16];
        let mut i: usize = 0;
        while i < 16
            invariant
                i <= 16,
                offset + 16 <= n == src@.len(),
                forall|j: int| 0 <= j < i ==> out@[j] == src@[offset + j],
            decreases 16 - i,
        {
            out[i] = src[offset + i];
            i += 1;
        }
        let g = Group(out);
        proof {
            assert(g@ =~= src@.subrange(offset as int, offset + WIDTH));
        }
        g
    }

    /// Like `load`, but for an offset on a group boundary, modelling the
    /// aligned fast path: the buffer's base is group-aligned, so a
    /// group-aligned offset keeps the read on an alignment boundary.
    pub fn load_aligned(src: &[u8], offset: usize) -> (g: Group)
        requires
            offset % WIDTH == 0,
            offset + WIDTH <= src@.len(),
        ensures
            g@ == src@.subrange(offset as int, offset + WIDTH),
    {
        Group::load(src, offset)
    }

    /// Checked variant of `load`: validates the bounds at runtime and
    /// reports a contract violation as `None` instead of reading past the
    /// buffer.
    pub fn load_checked(src: &[u8], offset: usize) -> (r: Option<Group>)
        ensures
            match r {
                Some(g) => offset + WIDTH <= src@.len() && g@ == src@.subrange(
                    offset as int,
                    offset + WIDTH,
                ),
                None => offset + WIDTH > src@.len(),
            },
    {
        if src.len() >= WIDTH && offset <= src.len() - WIDTH {
            Some(Group::load(src, offset))
        } else {
            None
        }
    }

    /// Checked variant of `load_aligned`: also validates the alignment of
    /// `offset` and reports a violation of either condition as `None`.
    pub fn load_aligned_checked(src: &[u8], offset: usize) -> (r: Option<Group>)
        ensures
            match r {
                Some(g) => offset % WIDTH == 0 && offset + WIDTH <= src@.len() && g@
                    == src@.subrange(offset as int, offset + WIDTH),
                None => offset % WIDTH != 0 || offset + WIDTH > src@.len(),
            },
    {
        if offset % WIDTH == 0 {
            Group::load_checked(src, offset)
        } else {
            None
        }
    }

    /// Writes the group's bytes back over `[offset, offset + WIDTH)` of
    /// `dst`. As with `load_aligned`, the offset must lie on a group
    /// boundary. Every byte outside that region is left unchanged.
    pub fn store_aligned(&self, dst: &mut Vec<u8>, offset: usize)
        requires
            offset % WIDTH == 0,
            offset + WIDTH <= old(dst)@.len(),
        ensures
            final(dst)@ == store_seq(old(dst)@, offset as int, self@),
    {
        let n: usize = dst.len();
        let mut i: usize = 0;
        while i < 16
            invariant
                offset + 16 <= n == dst@.len(),
                dst@.len() == old(dst)@.len(),
                i <= 16,
                forall|j: int| offset <= j < offset + i ==> dst@[j] == self@[j - offset],
                forall|j: int|
                    0 <= j < dst@.len() && !(offset <= j < offset + i) ==> dst@[j] == old(dst)@[j],
            decreases 16 - i,
        {
            dst[offset + i] = self.0[i];
            i += 1;
        }
        proof {
            assert(dst@ =~= store_seq(old(dst)@, offset as int, self@));
        }
    }

    /// Checked variant of `store_aligned`: validates bounds and alignment
    /// at runtime; on a contract violation it returns `false` and leaves
    /// `dst` untouched.
    pub fn store_aligned_checked(&self, dst: &mut Vec<u8>, offset: usize) -> (ok: bool)
        ensures
            ok <==> (offset % WIDTH == 0 && offset + WIDTH <= old(dst)@.len()),
            ok ==> final(dst)@ == store_seq(old(dst)@, offset as int, self@),
            !ok ==> final(dst)@ == old(dst)@,
    {
        if offset % WIDTH == 0 && dst.len() >= WIDTH && offset <= dst.len() - WIDTH {
            self.store_aligned(dst, offset);
            true
        } else {
            false
        }
    }

    /// Lanes whose control byte equals `byte`, as a `BitMask` whose
    /// iteration yields exactly those lane indices in ascending order.
    pub fn match_byte(&self, byte: u8) -> (r: BitMask)
        ensures
            r@ == match_byte_set(self@, byte),
    {
        let mut lanes: [bool; 16] = [false; 16];
        let mut i: usize = 0;
        while i < 16
            invariant
                i <= 16,
                forall|j: int| 0 <= j < i ==> (lanes@[j] <==> self@[j] == byte),
            decreases 16 - i,
        {
            lanes[i] = self.0[i] == byte;
            i += 1;
        }
        let r = BitMask::narrow(&lanes);
        proof {
            assert(r@ =~= match_byte_set(self@, byte));
        }
        r
    }

    /// Lanes whose control byte is `EMPTY`.
    pub fn match_empty(&self) -> (r: BitMask)
        ensures
            r@ == match_byte_set(self@, EMPTY),
    {
        self.match_byte(EMPTY)
    }

    /// Lanes whose control byte is `EMPTY` or `DELETED`.
    ///
    /// Exploits the encoding invariant that exactly those two states have
    /// the top bit set, so one sign test per lane replaces two equality
    /// comparisons.
    pub fn match_empty_or_deleted(&self) -> (r: BitMask)
        ensures
            r@ == empty_or_deleted_set(self@),
    {
        let mut lanes: [bool; 16] = [false; 16];
        let mut i: usize = 0;
        while i < 16
            invariant
                i <= 16,
                forall|j: int| 0 <= j < i ==> (lanes@[j] <==> self@[j] >= 0x80),
            decreases 16 - i,
        {
            lanes[i] = self.0[i] >= 0x80;
            i += 1;
        }
        let r = BitMask::narrow(&lanes);
        proof {
            assert(r@ =~= empty_or_deleted_set(self@));
        }
        r
    }

    /// Relabels every lane for an in-place tombstone-reclamation pass:
    /// `EMPTY` stays `EMPTY`, `DELETED` becomes `EMPTY`, and `FULL`
    /// (whatever its hash fragment) becomes `DELETED`.
    pub fn convert_special_to_empty_and_full_to_deleted(&self) -> (r: Group)
        ensures
            r@ == convert_seq(self@),
    {
        let mut out: [u8; 16] = [0u8; 16];
        let mut i: usize = 0;
        while i < 16
            invariant
                i <= 16,
                forall|j: int| 0 <= j < i ==> out@[j] == convert_byte(self@[j]),
            decreases 16 - i,
        {
            out[i] = if self.0[i] >= 0x80 {
                EMPTY
            } else {
                DELETED
            };
            i += 1;
        }
        let r = Group(out);
        proof {
            assert(r@ =~= convert_seq(self@));
        }
        r
    }
}

/// On a buffer made only of legal control bytes, the top-bit test scans
/// for exactly the union of the `EMPTY` lanes and the `DELETED` lanes:
/// `match_empty_or_deleted` reports the same lanes as `match_byte(EMPTY)`
/// and `match_byte(DELETED)` together.
pub proof fn lemma_empty_or_deleted_is_union(s: Seq<u8>)
    requires
        forall|i: int| 0 <= i < s.len() ==> is_control_byte(#[trigger] s[i]),
    ensures
        empty_or_deleted_set(s) == match_byte_set(s, EMPTY).union(match_byte_set(s, DELETED)),
{
    assert forall|i: int| 0 <= i < s.len() implies (s[i] >= 0x80 <==> (s[i] == EMPTY || s[i]
        == DELETED)) by {
        assert(is_control_byte(s[i]));
    }
    assert(empty_or_deleted_set(s) =~= match_byte_set(s, EMPTY).union(match_byte_set(s, DELETED)));
}

/// Truth table of the tombstone-reclamation relabeling, one lane at a
/// time: `EMPTY` stays `EMPTY`, `DELETED` becomes `EMPTY`, and `FULL`
/// becomes `DELETED` whatever hash fragment it carries.
pub proof fn lemma_convert_byte_truth_table()
    ensures
        convert_byte(EMPTY) == EMPTY,
        convert_byte(DELETED) == EMPTY,
        forall|b: u8| b < 0x80 ==> #[trigger] convert_byte(b) == DELETED,
{
}

/// Relabeling an all-`FULL` buffer twice frees every lane: the first pass
/// turns every lane into `DELETED`, the second turns every `DELETED` into
/// `EMPTY`.
pub proof fn lemma_convert_twice_all_full(s: Seq<u8>)
    requires
        forall|i: int| 0 <= i < s.len() ==> #[trigger] s[i] < 0x80,
    ensures
        convert_seq(convert_seq(s)).len() == s.len(),
        forall|i: int| 0 <= i < s.len() ==> convert_seq(convert_seq(s))[i] == EMPTY,
{
}

/// Round trip: a `load` followed immediately by a `store_aligned` writes
/// back exactly the bytes that were read. Storing over the destination
/// region reproduces the loaded source bytes there and touches nothing
/// else; storing a group back over the very region it was loaded from
/// leaves the buffer identical.
pub proof fn lemma_load_store_round_trip(src: Seq<u8>, so: int, dst: Seq<u8>, doff: int)
    requires
        0 <= so,
        so + WIDTH <= src.len(),
        0 <= doff,
        doff + WIDTH <= dst.len(),
    ensures
        store_seq(dst, doff, src.subrange(so, so + WIDTH)).subrange(doff, doff + WIDTH)
            == src.subrange(so, so + WIDTH),
        forall|j: int|
            0 <= j < dst.len() && !(doff <= j < doff + WIDTH) ==> store_seq(
                dst,
                doff,
                src.subrange(so, so + WIDTH),
            )[j] == dst[j],
        store_seq(src, so, src.subrange(so, so + WIDTH)) == src,
{
    assert(store_seq(dst, doff, src.subrange(so, so + WIDTH)).subrange(doff, doff + WIDTH)
        =~= src.subrange(so, so + WIDTH));
    assert(store_seq(src, so, src.subrange(so, so + WIDTH)) =~= src);
}

} // verus!

