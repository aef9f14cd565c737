//! The relocatable program a parse produces: ordered code regions, the
//! global label table, and the pending symbolic references awaiting the
//! linker.

use vstd::prelude::*;

use crate::util::copy_bytes;
use crate::util::append_bytes;
use crate::vm::Code;
use crate::vm::CodeSection;

verus! {

/// A deferred symbolic reference: the label whose address must be patched
/// in, plus a signed offset to add once the label resolves.
#[derive(Debug)]
pub struct LabelReplace {
    pub label: Vec<u8>,
    pub offset: i16,
}

/// Pending links of one code region, keyed by the byte offset (within the
/// region) where the two placeholder bytes sit.  Later entries for the same
/// offset supersede earlier ones.
pub type LabelLinkMap = Vec<(u16, LabelReplace)>;

/// The global label table.  A name may appear more than once; the latest
/// entry wins.
pub type LabelMap = Vec<(Vec<u8>, u16)>;

/// A contiguous relocatable block of assembled bytes with a fixed origin
/// address, a running write cursor, and its pending links.
#[derive(Debug)]
pub struct CodePart {
    pub bytes: Vec<u8>,
    pub start_pc: u16,
    pub pc: u16,
    pub link_map: LabelLinkMap,
}

impl CodePart {
    /// A fresh empty region whose origin and write cursor are `pc`.
    pub fn new(pc: u16) -> (r: Self)
        ensures
            r.bytes@ == Seq::<u8>::empty(),
            r.link_map@ == Seq::<(u16, LabelReplace)>::empty(),
            r.start_pc == pc,
            r.pc == pc,
    {
        CodePart { bytes: Vec::new(), link_map: Vec::new(), start_pc: pc, pc }
    }
}

/// Looks a label up in the table; the latest entry for a name wins.
pub open spec fn spec_lookup_label(labels: Seq<(Vec<u8>, u16)>, name: Seq<u8>) -> Option<u16>
    decreases labels.len(),
{
    if labels.len() == 0 {
        None
    } else if labels.last().0@ == name {
        Some(labels.last().1)
    } else {
        spec_lookup_label(labels.drop_last(), name)
    }
}

/// An ordered list of code regions plus the global label table.  Parsing
/// writes into the newest region; a new region is opened for each
/// origin-change directive.
#[derive(Debug)]
pub struct Program {
    pub parts: Vec<CodePart>,
    pub part_i: usize,
    pub labels: LabelMap,
}

impl Program {
    /// While the parser is building the program, the active region is the
    /// newest one.
    pub open spec fn building(self) -> bool {
        &&& self.parts@.len() >= 1
        &&& self.part_i == self.parts@.len() - 1
    }

    /// The active (newest) code region.
    pub open spec fn active(self) -> CodePart {
        self.parts@.last()
    }

    /// The active region's write cursor: the address the next emitted byte
    /// will occupy.
    pub open spec fn spec_pc(self) -> u16 {
        self.active().pc
    }
}

/// `post` is `pre` with the byte string `s` appended to the active region:
/// its buffer grows by `s` and its write cursor advances by `s.len()`,
/// wrapping modulo 65536; everything else is unchanged.
pub open spec fn appended(pre: Program, post: Program, s: Seq<u8>) -> bool {
    &&& post.parts@.len() == pre.parts@.len()
    &&& post.part_i == pre.part_i
    &&& post.labels@ == pre.labels@
    &&& forall|j: int|
        0 <= j < pre.parts@.len() - 1 ==> post.parts@[j] == pre.parts@[j]
    &&& post.active().bytes@ == pre.active().bytes@ + s
    &&& post.active().start_pc == pre.active().start_pc
    &&& post.active().link_map@ == pre.active().link_map@
    &&& post.active().pc == pre.active().pc.wrapping_add((s.len() % 0x10000) as u16)
}

/// `post` is `pre` with one entry added to the active region's link map and
/// nothing else changed.
pub open spec fn linked(pre: Program, post: Program, at: u16, name: Seq<u8>, offset: i16) -> bool {
    &&& post.parts@.len() == pre.parts@.len()
    &&& post.part_i == pre.part_i
    &&& post.labels@ == pre.labels@
    &&& forall|j: int|
        0 <= j < pre.parts@.len() - 1 ==> post.parts@[j] == pre.parts@[j]
    &&& post.active().bytes@ == pre.active().bytes@
    &&& post.active().start_pc == pre.active().start_pc
    &&& post.active().pc == pre.active().pc
    &&& post.active().link_map@.len() == pre.active().link_map@.len() + 1
    &&& post.active().link_map@.drop_last() == pre.active().link_map@
    &&& post.active().link_map@.last().0 == at
    &&& post.active().link_map@.last().1.label@ == name
    &&& post.active().link_map@.last().1.offset == offset
}

/// The regions of `s` are ordered by origin address.
pub open spec fn sorted_parts(s: Seq<CodePart>) -> bool {
    forall|i: int, j: int| 0 <= i < j < s.len() ==> s[i].start_pc <= s[j].start_pc
}

/// No region of `s` runs past the origin of the one after it.
pub open spec fn no_overlap(s: Seq<CodePart>) -> bool {
    forall|i: int|
        0 <= i < s.len() - 1 ==> s[i].start_pc + s[i].bytes@.len() <= s[i + 1].start_pc
}


/// What validation promises: the label table is untouched, the regions
/// are reordered (a permutation) by origin address, and the result is
/// `Ok` exactly when no region runs into the next; an error names the
/// first offending pair.
pub open spec fn validate_post(pre: Program, post: Program, r: Result<(), OverlapError>) -> bool {
    &&& post.labels@ == pre.labels@
    &&& post.part_i == pre.part_i
    &&& post.parts@.to_multiset() == pre.parts@.to_multiset()
    &&& post.parts@.len() == pre.parts@.len()
    &&& sorted_parts(post.parts@)
    &&& (r is Ok <==> no_overlap(post.parts@))
    &&& (r matches Err(e) ==> exists|i: int|
        {
            &&& 0 <= i < post.parts@.len() - 1
            &&& post.parts@[i].start_pc + post.parts@[i].bytes@.len() > post.parts@[i
                + 1].start_pc
            &&& e.origin == post.parts@[i].start_pc
            &&& e.next_origin == post.parts@[i + 1].start_pc
        })
}

/// `code` is the flattening of `p`: one section per region, in order,
/// carrying its origin and bytes.
pub open spec fn code_of(p: Program, code: Seq<CodeSection>) -> bool {
    &&& code.len() == p.parts@.len()
    &&& forall|j: int|
        0 <= j < code.len() ==> (#[trigger] code[j]).org == p.parts@[j].start_pc
            && code[j].code@ == p.parts@[j].bytes@
}

/// Two adjacent code regions overlap: the earlier one runs past the origin
/// of the later one.
#[derive(Debug)]
pub struct OverlapError {
    pub origin: u16,
    pub next_origin: u16,
}

impl Program {
    /// A fresh program: one empty region at origin 0, no labels.
    pub fn new() -> (r: Self)
        ensures
            r.building(),
            r.parts@.len() == 1,
            r.active().bytes@ == Seq::<u8>::empty(),
            r.active().link_map@ == Seq::<(u16, LabelReplace)>::empty(),
            r.active().start_pc == 0,
            r.active().pc == 0,
            r.labels@ == Seq::<(Vec<u8>, u16)>::empty(),
    {
        Program { parts: vec![CodePart::new(0)], part_i: 0, labels: Vec::new() }
    }

    /// The active region's write cursor.
    pub fn pc(&self) -> (r: u16)
        requires
            self.building(),
        ensures
            r == self.spec_pc(),
    {
        self.parts[self.part_i].pc
    }

    /// Appends raw bytes to the active region, advancing its write cursor
    /// modulo 65536.
    pub fn append_code(&mut self, b: &[u8])
        requires
            old(self).building(),
        ensures
            final(self).building(),
            appended(*old(self), *final(self), b@),
    {
        let mut part = match self.parts.pop() {
            Some(p) => p,
            None => {
                // unreachable: building() gives at least one region
                assert(false);
                CodePart::new(0)
            },
        };
        append_bytes(&mut part.bytes, b);
        let step: u16 = (b.len() % 65536) as u16;
        part.pc = part.pc.wrapping_add(step);
        self.parts.push(part);
    }

    /// Records the active region's write cursor under `name`; a later
    /// declaration of the same name supersedes this one.
    pub fn add_label(&mut self, name: &[u8])
        requires
            old(self).building(),
        ensures
            final(self).building(),
            final(self).parts@ == old(self).parts@,
            final(self).part_i == old(self).part_i,
            final(self).labels@.len() == old(self).labels@.len() + 1,
            final(self).labels@.drop_last() == old(self).labels@,
            final(self).labels@.last().0@ == name@,
            final(self).labels@.last().1 == old(self).spec_pc(),
            spec_lookup_label(final(self).labels@, name@) == Some(old(self).spec_pc()),
    {
        let at = self.parts[self.part_i].pc;
        self.labels.push((copy_bytes(name), at));
    }

    /// Records a pending link `pc_offset` bytes past the active region's
    /// write cursor (relative to the region's origin), to be patched with
    /// `name`'s address plus `offset` once labels resolve.
    pub fn add_link(&mut self, pc_offset: u16, name: &[u8], offset: i16)
        requires
            old(self).building(),
        ensures
            final(self).building(),
            linked(
                *old(self),
                *final(self),
                old(self).spec_pc().wrapping_sub(old(self).active().start_pc).wrapping_add(
                    pc_offset,
                ),
                name@,
                offset,
            ),
    {
        let mut part = match self.parts.pop() {
            Some(p) => p,
            None => {
                assert(false);
                CodePart::new(0)
            },
        };
        let at = part.pc.wrapping_sub(part.start_pc).wrapping_add(pc_offset);
        part.link_map.push((at, LabelReplace { label: copy_bytes(name), offset }));
        self.parts.push(part);
        assert(self.active().link_map@.drop_last() =~= old(self).active().link_map@);
    }

    /// Opens a new code region at origin `pc` and makes it the active write
    /// target.
    pub fn add_code_part(&mut self, pc: u16)
        requires
            old(self).building(),
        ensures
            final(self).building(),
            final(self).labels@ == old(self).labels@,
            final(self).parts@.len() == old(self).parts@.len() + 1,
            final(self).parts@.drop_last() == old(self).parts@,
            final(self).active().bytes@ == Seq::<u8>::empty(),
            final(self).active().link_map@ == Seq::<(u16, LabelReplace)>::empty(),
            final(self).active().start_pc == pc,
            final(self).active().pc == pc,
    {
        self.parts.push(CodePart::new(pc));
        let n = self.parts.len();
        self.part_i = n - 1;
        assert(self.parts@.drop_last() =~= old(self).parts@);
    }

    /// Flattens the program into the list of (origin, bytes) sections the
    /// machine loader and the persistence codec consume.
    pub fn to_code(&self) -> (r: Code)
        ensures
            code_of(*self, r@),
    {
        let mut code: Vec<CodeSection> = Vec::new();
        let mut i: usize = 0;
        while i < self.parts.len()
            invariant
                0 <= i <= self.parts@.len(),
                code@.len() == i,
                forall|j: int|
                    0 <= j < i ==> (#[trigger] code@[j]).org == self.parts@[j].start_pc
                        && code@[j].code@ == self.parts@[j].bytes@,
            decreases self.parts@.len() - i,
        {
            let cs = CodeSection {
                org: self.parts[i].start_pc,
                code: copy_bytes(self.parts[i].bytes.as_slice()),
            };
            code.push(cs);
            i += 1;
        }
        code
    }

    /// Sorts the regions by origin and checks that none runs into the next:
    /// `Ok` exactly when the sorted regions are free of overlap, and the
    /// error names the first offending pair.
    pub fn validate(&mut self) -> (r: Result<(), OverlapError>)
        ensures
            validate_post(*old(self), *final(self), r),
    {
        self.sort_parts();
        let ghost sp = self.parts@;
        let ghost labs = self.labels@;
        let ghost pi = self.part_i;
        let n = self.parts.len();
        if n > 0 {
            let mut i: usize = 0;
            while i < n - 1
                invariant
                    self.parts@ == sp,
                    self.labels@ == labs,
                    self.part_i == pi,
                    labs == old(self).labels@,
                    pi == old(self).part_i,
                    sp.to_multiset() == old(self).parts@.to_multiset(),
                    sp.len() == old(self).parts@.len(),
                    sorted_parts(self.parts@),
                    self.parts@.len() == n,
                    n >= 1,
                    0 <= i <= n - 1,
                    forall|j: int|
                        0 <= j < i ==> self.parts@[j].start_pc + self.parts@[j].bytes@.len()
                            <= self.parts@[j + 1].start_pc,
                decreases n - 1 - i,
            {
                let start = self.parts[i].start_pc;
                let next_start = self.parts[i + 1].start_pc;
                assert(start <= next_start);
                let room: usize = next_start as usize - start as usize;
                if self.parts[i].bytes.len() > room {
                    return Err(OverlapError { origin: start, next_origin: next_start });
                }
                i += 1;
            }
        }
        Ok(())
    }

    /// Selection sort of the regions by origin address.
    fn sort_parts(&mut self)
        ensures
            final(self).labels@ == old(self).labels@,
            final(self).part_i == old(self).part_i,
            final(self).parts@.to_multiset() == old(self).parts@.to_multiset(),
            final(self).parts@.len() == old(self).parts@.len(),
            sorted_parts(final(self).parts@),
    {
        broadcast use vstd::seq_lib::group_to_multiset_ensures;

        let ghost orig = self.parts@;
        let ghost labs = self.labels@;
        let ghost pi = self.part_i;
        let mut out: Vec<CodePart> = Vec::new();
        while self.parts.len() > 0
            invariant
                self.labels@ == labs,
                self.part_i == pi,
                out@.len() + self.parts@.len() == orig.len(),
                out@.to_multiset().add(self.parts@.to_multiset()) == orig.to_multiset(),
                sorted_parts(out@),
                forall|i: int, j: int|
                    0 <= i < out@.len() && 0 <= j < self.parts@.len() ==> out@[i].start_pc
                        <= self.parts@[j].start_pc,
            decreases self.parts@.len(),
        {
            let mut k: usize = 0;
            let mut m: usize = 1;
            while m < self.parts.len()
                invariant
                    self.parts@.len() > 0,
                    0 <= k < m,
                    m <= self.parts@.len(),
                    forall|j: int|
                        0 <= j < m ==> self.parts@[k as int].start_pc
                            <= self.parts@[j].start_pc,
                decreases self.parts@.len() - m,
            {
                if self.parts[m].start_pc < self.parts[k].start_pc {
                    k = m;
                }
                m += 1;
            }
            let ghost pre = self.parts@;
            let ghost out_pre = out@;
            let p = self.parts.remove(k);
            out.push(p);
            proof {
                out_pre.to_multiset_ensures();
                pre.to_multiset_ensures();
                assert(pre[k as int] == p);
                assert(pre.contains(p));
                assert(out@ == out_pre.push(p));
                assert(out@.to_multiset() =~= out_pre.to_multiset().insert(p));
                assert(self.parts@ == pre.remove(k as int));
                assert(self.parts@.to_multiset() =~= pre.to_multiset().remove(p));
                assert(out@.to_multiset().add(self.parts@.to_multiset())
                    =~= out_pre.to_multiset().add(pre.to_multiset()));
                assert(forall|j: int|
                    0 <= j < self.parts@.len() ==> p.start_pc
                        <= (#[trigger] self.parts@[j]).start_pc) by {
                    assert forall|j: int| 0 <= j < self.parts@.len() implies p.start_pc
                        <= (#[trigger] self.parts@[j]).start_pc by {
                        if j < k {
                            assert(self.parts@[j] == pre[j]);
                        } else {
                            assert(self.parts@[j] == pre[j + 1]);
                        }
                    }
                }
            }
        }
        proof {
            assert(self.parts@.to_multiset().len() == 0);
            assert(out@.to_multiset().add(self.parts@.to_multiset()) =~= out@.to_multiset());
            assert(out@.to_multiset() =~= orig.to_multiset());
        }
        self.parts = out;
    }
}

/// `post` is `pre` after a run of emissions into the active region:
/// `links` recorded in order, `bytes` appended, everything else
/// untouched.
pub open spec fn bulk_emitted(
    pre: Program,
    post: Program,
    links: Seq<(u16, Seq<u8>, i16)>,
    bytes: Seq<u8>,
) -> bool {
    &&& post.parts@.len() == pre.parts@.len()
    &&& post.part_i == pre.part_i
    &&& post.labels@ == pre.labels@
    &&& forall|j: int|
        0 <= j < pre.parts@.len() - 1 ==> post.parts@[j] == pre.parts@[j]
    &&& post.active().start_pc == pre.active().start_pc
    &&& post.active().bytes@ == pre.active().bytes@ + bytes
    &&& post.active().pc == pre.active().pc.wrapping_add((bytes.len() % 0x10000) as u16)
    &&& post.active().link_map@.len() == pre.active().link_map@.len() + links.len()
    &&& post.active().link_map@.take(pre.active().link_map@.len() as int) == pre.active().link_map@
    &&& forall|j: int|
        0 <= j < links.len() ==> {
            let e = #[trigger] post.active().link_map@[pre.active().link_map@.len() + j];
            &&& e.0 == links[j].0
            &&& e.1.label@ == links[j].1
            &&& e.1.offset == links[j].2
        }
}

/// Appending alone is a bulk emission with no links.
pub proof fn lemma_appended_is_bulk(pre: Program, post: Program, bytes: Seq<u8>)
    requires
        appended(pre, post, bytes),
    ensures
        bulk_emitted(pre, post, Seq::<(u16, Seq<u8>, i16)>::empty(), bytes),
{
    assert(post.active().link_map@.take(pre.active().link_map@.len() as int)
        =~= pre.active().link_map@);
}

/// Recording one link alone is a bulk emission with no bytes.
pub proof fn lemma_linked_is_bulk(pre: Program, post: Program, at: u16, lbl: Seq<u8>, off: i16)
    requires
        linked(pre, post, at, lbl, off),
    ensures
        bulk_emitted(pre, post, seq![(at, lbl, off)], Seq::<u8>::empty()),
{
    assert(post.active().bytes@ =~= pre.active().bytes@ + Seq::<u8>::empty());
    assert(post.active().link_map@.take(pre.active().link_map@.len() as int)
        =~= pre.active().link_map@);
    assert(post.active().link_map@[pre.active().link_map@.len() as int]
        == post.active().link_map@.last());
}

/// Wrapped cursor advances compose: stepping by `m` then `n` is stepping
/// by `m + n`, all modulo 65536.
proof fn lemma_wadd_mod(p: u16, m: nat, n: nat)
    ensures
        p.wrapping_add((m % 0x10000) as u16).wrapping_add((n % 0x10000) as u16)
            == p.wrapping_add((((m + n) % 0x10000) as nat) as u16),
{
    let k: nat = 0x10000;
    vstd::arithmetic::div_mod::lemma_add_mod_noop(m as int, n as int, k as int);
    vstd::arithmetic::div_mod::lemma_mod_bound(m as int, k as int);
    vstd::arithmetic::div_mod::lemma_mod_bound(n as int, k as int);
    vstd::arithmetic::div_mod::lemma_mod_bound((m + n) as int, k as int);
}

/// Bulk emissions compose.
pub proof fn lemma_bulk_trans(
    a: Program,
    b: Program,
    c: Program,
    l1: Seq<(u16, Seq<u8>, i16)>,
    b1: Seq<u8>,
    l2: Seq<(u16, Seq<u8>, i16)>,
    b2: Seq<u8>,
)
    requires
        bulk_emitted(a, b, l1, b1),
        bulk_emitted(b, c, l2, b2),
    ensures
        bulk_emitted(a, c, l1 + l2, b1 + b2),
{
    assert(c.active().bytes@ =~= a.active().bytes@ + (b1 + b2));
    lemma_wadd_mod(a.active().pc, b1.len(), b2.len());
    let la = a.active().link_map@.len() as int;
    let lb = b.active().link_map@.len() as int;
    assert(c.active().link_map@.take(la) =~= a.active().link_map@) by {
        assert(b.active().link_map@.take(la) == a.active().link_map@);
        assert(c.active().link_map@.take(lb) == b.active().link_map@);
        assert forall|j: int| 0 <= j < la implies c.active().link_map@[j]
            == a.active().link_map@[j] by {
            assert(c.active().link_map@.take(lb)[j] == b.active().link_map@[j]);
            assert(b.active().link_map@.take(la)[j] == a.active().link_map@[j]);
        }
    }
    assert forall|j: int| 0 <= j < (l1 + l2).len() implies {
        let e = #[trigger] c.active().link_map@[a.active().link_map@.len() + j];
        &&& e.0 == (l1 + l2)[j].0
        &&& e.1.label@ == (l1 + l2)[j].1
        &&& e.1.offset == (l1 + l2)[j].2
    } by {
        if j < l1.len() {
            assert(c.active().link_map@.take(lb)[la + j] == b.active().link_map@[la + j]);
            assert((l1 + l2)[j] == l1[j]);
        } else {
            assert(c.active().link_map@[lb + (j - l1.len())]
                == c.active().link_map@[la + j]);
            assert((l1 + l2)[j] == l2[j - l1.len()]);
        }
    }
}

} // verus!
