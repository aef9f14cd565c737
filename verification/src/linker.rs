//! The linker: patches every pending symbolic reference with the address
//! recorded in the label table, plus the reference's signed offset, as
//! two big-endian bytes.  Linking is all-or-nothing: one unresolved
//! symbol fails the whole program.

use vstd::prelude::*;

use crate::util::hi8;
use crate::util::lo8;
use crate::program::CodePart;
use crate::program::LabelReplace;
use crate::program::Program;
use crate::program::spec_lookup_label;

verus! {

/// Why a link failed: a label nobody defined, or a patch location that
/// does not lie inside its region's bytes.
#[derive(Debug)]
pub enum LinkError {
    UndefinedLabel(Vec<u8>),
    LocationOutOfRange(u16),
}

/// The spec-level shape of a link failure.
pub enum LinkFault {
    Undefined(Seq<u8>),
    OutOfRange(u16),
}

/// Two bytes of `bytes` overwritten with the big-endian value `v`.
pub open spec fn patch16(bytes: Seq<u8>, at: int, v: u16) -> Seq<u8> {
    bytes.update(at, hi8(v)).update(at + 1, lo8(v))
}

/// Resolves the pending links of one region in order against the label
/// table: each link is patched with the label's address plus its signed
/// offset (wrapping), or the whole run fails on the first link whose
/// label is missing or whose location lies outside the bytes.
pub open spec fn spec_link_links(
    bytes: Seq<u8>,
    links: Seq<(u16, LabelReplace)>,
    labels: Seq<(Vec<u8>, u16)>,
) -> Result<Seq<u8>, LinkFault>
    decreases links.len(),
{
    if links.len() == 0 {
        Ok(bytes)
    } else {
        let at = links[0].0;
        let lr = links[0].1;
        match spec_lookup_label(labels, lr.label@) {
            None => Err(LinkFault::Undefined(lr.label@)),
            Some(a) => {
                if at + 1 < bytes.len() {
                    spec_link_links(
                        patch16(bytes, at as int, a.wrapping_add_signed(lr.offset)),
                        links.drop_first(),
                        labels,
                    )
                } else {
                    Err(LinkFault::OutOfRange(at))
                }
            },
        }
    }
}

/// One region's bytes after all its links resolve.
pub open spec fn spec_link_part(part: CodePart, labels: Seq<(Vec<u8>, u16)>) -> Result<
    Seq<u8>,
    LinkFault,
> {
    spec_link_links(part.bytes@, part.link_map@, labels)
}

/// The returned error names the same failure the spec-level outcome
/// holds.
pub open spec fn link_err_matches(e: LinkError, f: Result<Seq<u8>, LinkFault>) -> bool {
    match f {
        Ok(_) => false,
        Err(LinkFault::Undefined(l)) => e matches LinkError::UndefinedLabel(v) && v@ == l,
        Err(LinkFault::OutOfRange(a)) => e matches LinkError::LocationOutOfRange(b) && b == a,
    }
}

/// Looks a label up; the latest declaration of a name wins.
fn lookup_label(labels: &Vec<(Vec<u8>, u16)>, name: &[u8]) -> (r: Option<u16>)
    ensures
        r == spec_lookup_label(labels@, name@),
{
    let mut i: usize = labels.len();
    proof {
        assert(labels@.take(labels@.len() as int) =~= labels@);
    }
    while i > 0
        invariant
            0 <= i <= labels@.len(),
            spec_lookup_label(labels@, name@) == spec_lookup_label(labels@.take(i as int), name@),
        decreases i,
    {
        if crate::util::bytes_eq(labels[i - 1].0.as_slice(), name) {
            proof {
                assert(labels@.take(i as int).last() == labels@[i - 1]);
            }
            return Some(labels[i - 1].1);
        }
        proof {
            assert(labels@.take(i as int).drop_last() =~= labels@.take(i as int - 1));
        }
        i -= 1;
    }
    None
}
/// Every pending link of `part` resolves: its label is in the table and
/// its patch location lies inside the region's bytes.
pub open spec fn links_resolve(part: CodePart, labels: Seq<(Vec<u8>, u16)>) -> bool {
    forall|j: int|
        0 <= j < part.link_map@.len() ==> {
            let l = #[trigger] part.link_map@[j];
            &&& spec_lookup_label(labels, l.1.label@) is Some
            &&& l.0 + 1 < part.bytes@.len()
        }
}

/// When every link resolves, the region's link run succeeds.
proof fn lemma_links_resolve_ok(bytes: Seq<u8>, links: Seq<(u16, LabelReplace)>, labels: Seq<(Vec<u8>, u16)>)
    requires
        forall|j: int|
            0 <= j < links.len() ==> {
                let l = #[trigger] links[j];
                &&& spec_lookup_label(labels, l.1.label@) is Some
                &&& l.0 + 1 < bytes.len()
            },
    ensures
        spec_link_links(bytes, links, labels) is Ok,
    decreases links.len(),
{
    if links.len() > 0 {
        assert(links[0].0 + 1 < bytes.len());
        let a = spec_lookup_label(labels, links[0].1.label@).unwrap();
        let patched = patch16(bytes, links[0].0 as int, a.wrapping_add_signed(links[0].1.offset));
        assert(patched.len() == bytes.len());
        assert forall|j: int|
            0 <= j < links.drop_first().len() implies {
                let l = #[trigger] links.drop_first()[j];
                &&& spec_lookup_label(labels, l.1.label@) is Some
                &&& l.0 + 1 < patched.len()
            } by {
            assert(links.drop_first()[j] == links[j + 1]);
        }
        lemma_links_resolve_ok(patched, links.drop_first(), labels);
    }
}

/// When the first `k` links resolve and the `k`-th does not, the
/// region's link run fails with exactly that link's fault.
proof fn lemma_links_first_fault(
    bytes: Seq<u8>,
    links: Seq<(u16, LabelReplace)>,
    labels: Seq<(Vec<u8>, u16)>,
    k: int,
)
    requires
        0 <= k < links.len(),
        forall|j: int|
            0 <= j < k ==> {
                let l = #[trigger] links[j];
                &&& spec_lookup_label(labels, l.1.label@) is Some
                &&& l.0 + 1 < bytes.len()
            },
        spec_lookup_label(labels, links[k].1.label@) is None || links[k].0 + 1 >= bytes.len(),
    ensures
        spec_link_links(bytes, links, labels) == (if spec_lookup_label(
            labels,
            links[k].1.label@,
        ) is None {
            Err::<Seq<u8>, LinkFault>(LinkFault::Undefined(links[k].1.label@))
        } else {
            Err::<Seq<u8>, LinkFault>(LinkFault::OutOfRange(links[k].0))
        }),
    decreases k,
{
    if k == 0 {
    } else {
        assert(links[0].0 + 1 < bytes.len());
        let a = spec_lookup_label(labels, links[0].1.label@).unwrap();
        let patched = patch16(bytes, links[0].0 as int, a.wrapping_add_signed(links[0].1.offset));
        assert(patched.len() == bytes.len());
        assert forall|j: int|
            0 <= j < k - 1 implies {
                let l = #[trigger] links.drop_first()[j];
                &&& spec_lookup_label(labels, l.1.label@) is Some
                &&& l.0 + 1 < patched.len()
            } by {
            assert(links.drop_first()[j] == links[j + 1]);
        }
        assert(links.drop_first()[k - 1] == links[k]);
        lemma_links_first_fault(patched, links.drop_first(), labels, k - 1);
    }
}

/// What linking promises: the label table, the region count and every
/// region's origin, cursor, link table and byte count are untouched; it
/// succeeds exactly when every region's link run does, and then each
/// region's bytes are that run's result; on failure the whole program is
/// left exactly as it was (linking is all-or-nothing) and the error
/// names the first unresolved link.
pub open spec fn link_post(pre: Program, post: Program, r: Result<(), LinkError>) -> bool {
    &&& post.labels@ == pre.labels@
    &&& post.part_i == pre.part_i
    &&& post.parts@.len() == pre.parts@.len()
    &&& forall|i: int|
        0 <= i < pre.parts@.len() ==> {
            let p0 = pre.parts@[i];
            let p1 = #[trigger] post.parts@[i];
            &&& p1.start_pc == p0.start_pc
            &&& p1.pc == p0.pc
            &&& p1.link_map@ == p0.link_map@
            &&& p1.bytes@.len() == p0.bytes@.len()
        }
    &&& (r is Ok <==> (forall|i: int|
        0 <= i < pre.parts@.len() ==> (spec_link_part(#[trigger] pre.parts@[i], pre.labels@)
            is Ok)))
    &&& (r is Ok ==> (forall|i: int|
        0 <= i < pre.parts@.len() ==> spec_link_part(#[trigger] pre.parts@[i], pre.labels@)
            == Ok::<Seq<u8>, LinkFault>(post.parts@[i].bytes@)))
    &&& (r matches Err(e) ==> post.parts@ == pre.parts@ && exists|i: int|
        0 <= i < pre.parts@.len() && link_err_matches(
            e,
            spec_link_part(#[trigger] pre.parts@[i], pre.labels@),
        ))
}

/// Resolves every pending link in every region, all or nothing: every
/// link of every region is first looked up and range-checked, and only
/// when all of them resolve are any bytes patched.  On success each
/// region's bytes are exactly its spec-level link result; on failure the
/// program is untouched and the error names the first unresolved link.
pub fn link(program: &mut Program) -> (r: Result<(), LinkError>)
    ensures
        link_post(*old(program), *final(program), r),
{
    let ghost orig = program.parts@;
    let ghost labs = program.labels@;
    let n = program.parts.len();

    // first pass: resolve and range-check every link, touching nothing
    let mut pi: usize = 0;
    while pi < n
        invariant
            program == old(program),
            orig == program.parts@,
            labs == program.labels@,
            n == orig.len(),
            0 <= pi <= n,
            forall|i: int| 0 <= i < pi ==> links_resolve(#[trigger] orig[i], labs),
        decreases n - pi,
    {
        let nl = program.parts[pi].link_map.len();
        let mut li: usize = 0;
        while li < nl
            invariant
                program == old(program),
                orig == program.parts@,
                labs == program.labels@,
                n == orig.len(),
                0 <= pi < n,
                nl == orig[pi as int].link_map@.len(),
                0 <= li <= nl,
                forall|j: int|
                    0 <= j < li ==> {
                        let l = #[trigger] orig[pi as int].link_map@[j];
                        &&& spec_lookup_label(labs, l.1.label@) is Some
                        &&& l.0 + 1 < orig[pi as int].bytes@.len()
                    },
            decreases nl - li,
        {
            let at = program.parts[pi].link_map[li].0;
            let found = lookup_label(
                &program.labels,
                program.parts[pi].link_map[li].1.label.as_slice(),
            );
            match found {
                None => {
                    let lblcopy = crate::util::copy_bytes(
                        program.parts[pi].link_map[li].1.label.as_slice(),
                    );
                    proof {
                        lemma_links_first_fault(
                            orig[pi as int].bytes@,
                            orig[pi as int].link_map@,
                            labs,
                            li as int,
                        );
                    }
                    return Err(LinkError::UndefinedLabel(lblcopy));
                },
                Some(_) => {
                    if at as usize + 1 >= program.parts[pi].bytes.len() {
                        proof {
                            lemma_links_first_fault(
                                orig[pi as int].bytes@,
                                orig[pi as int].link_map@,
                                labs,
                                li as int,
                            );
                        }
                        return Err(LinkError::LocationOutOfRange(at));
                    }
                },
            }
            li += 1;
        }
        pi += 1;
    }
    proof {
        assert forall|i: int|
            0 <= i < n implies (spec_link_part(#[trigger] orig[i], labs) is Ok) by {
            lemma_links_resolve_ok(orig[i].bytes@, orig[i].link_map@, labs);
        }
    }

    // second pass: patch every link; nothing can fail any more
    let mut pi2: usize = 0;
    while pi2 < n
        invariant
            program.parts@.len() == n,
            orig.len() == n,
            orig == old(program).parts@,
            program.labels@ == old(program).labels@,
            program.part_i == old(program).part_i,
            labs == old(program).labels@,
            0 <= pi2 <= n,
            forall|i: int| 0 <= i < n ==> links_resolve(#[trigger] orig[i], labs),
            forall|i: int| pi2 <= i < n ==> #[trigger] program.parts@[i] == orig[i],
            forall|i: int|
                0 <= i < pi2 ==> {
                    let p0 = orig[i];
                    let p1 = #[trigger] program.parts@[i];
                    &&& p1.start_pc == p0.start_pc
                    &&& p1.pc == p0.pc
                    &&& p1.link_map@ == p0.link_map@
                    &&& spec_link_part(p0, labs) == Ok::<Seq<u8>, LinkFault>(p1.bytes@)
                    &&& p1.bytes@.len() == p0.bytes@.len()
                },
        decreases n - pi2,
    {
        let ghost parts_pre = program.parts@;
        let mut part = program.parts.remove(pi2);
        let ghost pp = program.parts@;
        let nl = part.link_map.len();
        let mut li: usize = 0;
        proof {
            assert(part.link_map@.skip(0) =~= part.link_map@);
        }
        while li < nl
            invariant
                program.parts@ == pp,
                pp.len() == n - 1,
                n >= 1,
                parts_pre.len() == n,
                pp == parts_pre.remove(pi2 as int),
                forall|i: int| 0 <= i < n ==> links_resolve(#[trigger] orig[i], labs),
                program.labels@ == labs,
                program.part_i == old(program).part_i,
                labs == old(program).labels@,
                orig == old(program).parts@,
                0 <= li <= nl,
                nl == part.link_map@.len(),
                part.link_map@ == orig[pi2 as int].link_map@,
                part.start_pc == orig[pi2 as int].start_pc,
                part.pc == orig[pi2 as int].pc,
                part.bytes@.len() == orig[pi2 as int].bytes@.len(),
                pi2 < n,
                orig.len() == n,
                spec_link_part(orig[pi2 as int], labs) == spec_link_links(
                    part.bytes@,
                    part.link_map@.skip(li as int),
                    labs,
                ),
            decreases nl - li,
        {
            let at = part.link_map[li].0;
            proof {
                assert(part.link_map@.skip(li as int)[0] == part.link_map@[li as int]);
                assert(part.link_map@.skip(li as int).drop_first() =~= part.link_map@.skip(
                    li as int + 1,
                ));
                assert(links_resolve(orig[pi2 as int], labs));
                assert(spec_lookup_label(labs, orig[pi2 as int].link_map@[li as int].1.label@)
                    is Some);
                assert(at + 1 < part.bytes@.len());
            }
            let found = lookup_label(&program.labels, part.link_map[li].1.label.as_slice());
            let a = match found {
                Some(a) => a,
                None => {
                    assert(false);
                    0
                },
            };
            let newloc = a.wrapping_add_signed(part.link_map[li].1.offset);
            let loc = at as usize;
            let ghost bytes_pre = part.bytes@;
            part.bytes[loc] = (newloc / 256) as u8;
            part.bytes[loc + 1] = (newloc % 256) as u8;
            proof {
                assert(part.bytes@ =~= patch16(bytes_pre, loc as int, newloc));
            }
            li += 1;
        }
        proof {
            assert(part.link_map@.skip(nl as int) =~= Seq::<(u16, LabelReplace)>::empty());
            assert(spec_link_part(orig[pi2 as int], labs) == Ok::<Seq<u8>, LinkFault>(
                part.bytes@,
            ));
        }
        let ghost partg = part;
        program.parts.insert(pi2, part);
        proof {
            assert forall|i: int| 0 <= i < n && i != pi2 implies #[trigger] program.parts@[i]
                == parts_pre[i] by {
                if i < pi2 {
                    assert(program.parts@[i] == pp[i]);
                    assert(pp[i] == parts_pre[i]);
                } else {
                    assert(program.parts@[i] == pp[i - 1]);
                    assert(pp[i - 1] == parts_pre[i]);
                }
            }
            assert(program.parts@[pi2 as int] == partg);
        }
        pi2 += 1;
    }
    Ok(())
}

} // verus!
