//! Trace-mode grouping: walking the direct children of an evaluation-tree
//! root, collecting one insertion-ordered, name-keyed group per status, and
//! the supersession rule that drops a SKIP entry whose name was also
//! concretely evaluated.

use vstd::prelude::*;
use vstd::string::*;
use crate::status::{EvalNode, NamedStatus, Status};

verus! {

/// A group as the specification sees it: the (name, status) pairs in
/// insertion order.
pub open spec fn group_view(g: Seq<NamedStatus>) -> Seq<(Seq<char>, Status)> {
    g.map_values(|e: NamedStatus| (e.name@, e.status))
}

/// Some pair of the group carries this name.
pub open spec fn has_name(g: Seq<(Seq<char>, Status)>, n: Seq<char>) -> bool {
    exists|i: int| 0 <= i < g.len() && g[i].0 == n
}

/// The group for status `c` over the direct children of a root: one pair per
/// child that carries a rule-check result with that status, keyed by name,
/// first occurrence kept, in input order.
pub open spec fn group_for(children: Seq<EvalNode>, c: Status) -> Seq<(Seq<char>, Status)>
    decreases children.len(),
{
    if children.len() == 0 {
        Seq::empty()
    } else {
        let rest = group_for(children.drop_last(), c);
        match children.last().check {
            Option::Some(ns) => if ns.status == c && !has_name(rest, ns.name@) {
                rest.push((ns.name@, ns.status))
            } else {
                rest
            },
            Option::None => rest,
        }
    }
}

/// The length of the longest rule name among the children that carry a
/// rule-check result.
pub open spec fn max_name_len(children: Seq<EvalNode>) -> nat
    decreases children.len(),
{
    if children.len() == 0 {
        0
    } else {
        let rest = max_name_len(children.drop_last());
        match children.last().check {
            Option::Some(ns) => if ns.name@.len() > rest {
                ns.name@.len()
            } else {
                rest
            },
            Option::None => rest,
        }
    }
}

/// The SKIP pairs that survive supersession: those whose name appears
/// neither in the PASS group nor in the FAIL group.
pub open spec fn unsuperseded(
    skip: Seq<(Seq<char>, Status)>,
    pass: Seq<(Seq<char>, Status)>,
    fail: Seq<(Seq<char>, Status)>,
) -> Seq<(Seq<char>, Status)>
    decreases skip.len(),
{
    if skip.len() == 0 {
        Seq::empty()
    } else {
        let rest = unsuperseded(skip.drop_last(), pass, fail);
        let p = skip.last();
        if !has_name(pass, p.0) && !has_name(fail, p.0) {
            rest.push(p)
        } else {
            rest
        }
    }
}

pub proof fn lemma_group_view_push(g: Seq<NamedStatus>, e: NamedStatus)
    ensures
        group_view(g.push(e)) == group_view(g).push((e.name@, e.status)),
{
    assert(group_view(g.push(e)) =~= group_view(g).push((e.name@, e.status)));
}

/// Does the group already hold an entry of this name?
pub(crate) fn group_contains(g: &Vec<NamedStatus>, name: &String) -> (r: bool)
    ensures
        r == has_name(group_view(g@), name@),
{
    let n = g.len();
    let mut i: usize = 0;
    while i < n
        invariant
            i <= n,
            n == g@.len(),
            forall|j: int| 0 <= j < i ==> g@[j].name@ != name@,
        decreases n - i,
    {
        if g[i].name.eq(name) {
            proof {
                assert(group_view(g@)[i as int].0 == name@);
            }
            return true;
        }
        i = i + 1;
    }
    proof {
        assert(forall|j: int| 0 <= j < g@.len() ==> group_view(g@)[j].0 == g@[j].name@);
    }
    false
}

/// Keeps the SKIP entries whose name was never concretely evaluated.
pub(crate) fn retain_unsuperseded(
    skipped: &Vec<NamedStatus>,
    passed: &Vec<NamedStatus>,
    failed: &Vec<NamedStatus>,
) -> (r: Vec<NamedStatus>)
    ensures
        group_view(r@) == unsuperseded(group_view(skipped@), group_view(passed@), group_view(failed@)),
{
    let ghost gv_skip = group_view(skipped@);
    let ghost gv_pass = group_view(passed@);
    let ghost gv_fail = group_view(failed@);
    let mut r: Vec<NamedStatus> = Vec::new();
    let n = skipped.len();
    let mut i: usize = 0;
    proof {
        assert(gv_skip.subrange(0, 0) =~= Seq::<(Seq<char>, Status)>::empty());
        assert(group_view(r@) =~= unsuperseded(gv_skip.subrange(0, 0), gv_pass, gv_fail));
    }
    while i < n
        invariant
            i <= n,
            n == skipped@.len(),
            gv_skip == group_view(skipped@),
            gv_pass == group_view(passed@),
            gv_fail == group_view(failed@),
            group_view(r@) == unsuperseded(gv_skip.subrange(0, i as int), gv_pass, gv_fail),
        decreases n - i,
    {
        let e = &skipped[i];
        if !group_contains(passed, &e.name) && !group_contains(failed, &e.name) {
            let kept = NamedStatus { name: e.name.clone(), status: e.status };
            proof {
                lemma_group_view_push(r@, kept);
            }
            r.push(kept);
        }
        proof {
            let sub1 = gv_skip.subrange(0, i + 1);
            assert(sub1.drop_last() =~= gv_skip.subrange(0, i as int));
            assert(sub1.last() == gv_skip[i as int]);
            assert(gv_skip[i as int] == (skipped@[i as int].name@, skipped@[i as int].status));
            assert(group_view(r@) =~= unsuperseded(sub1, gv_pass, gv_fail));
        }
        i = i + 1;
    }
    proof {
        assert(gv_skip.subrange(0, n as int) =~= gv_skip);
    }
    r
}

/// The three groups and the longest name over the qualifying children of a
/// root, before supersession.
pub(crate) fn build_groups(root: &EvalNode) -> (r: (Vec<NamedStatus>, Vec<NamedStatus>, Vec<NamedStatus>, usize))
    ensures
        group_view(r.0@) == group_for(root.children@, Status::PASS),
        group_view(r.1@) == group_for(root.children@, Status::FAIL),
        group_view(r.2@) == group_for(root.children@, Status::SKIP),
        r.3 as nat == max_name_len(root.children@),
{
    let mut passed: Vec<NamedStatus> = Vec::new();
    let mut failed: Vec<NamedStatus> = Vec::new();
    let mut skipped: Vec<NamedStatus> = Vec::new();
    let mut longest: usize = 0;
    let n = root.children.len();
    let mut i: usize = 0;
    proof {
        assert(root.children@.subrange(0, 0) =~= Seq::<EvalNode>::empty());
        assert(group_view(passed@) =~= group_for(root.children@.subrange(0, 0), Status::PASS));
        assert(group_view(failed@) =~= group_for(root.children@.subrange(0, 0), Status::FAIL));
        assert(group_view(skipped@) =~= group_for(root.children@.subrange(0, 0), Status::SKIP));
    }
    while i < n
        invariant
            i <= n,
            n == root.children@.len(),
            group_view(passed@) == group_for(root.children@.subrange(0, i as int), Status::PASS),
            group_view(failed@) == group_for(root.children@.subrange(0, i as int), Status::FAIL),
            group_view(skipped@) == group_for(root.children@.subrange(0, i as int), Status::SKIP),
            longest as nat == max_name_len(root.children@.subrange(0, i as int)),
        decreases n - i,
    {
        let child = &root.children[i];
        match &child.check {
            Option::Some(ns) => {
                let l = ns.name.as_str().unicode_len();
                if longest < l {
                    longest = l;
                }
                match ns.status {
                    Status::PASS => {
                        if !group_contains(&passed, &ns.name) {
                            let e = NamedStatus { name: ns.name.clone(), status: ns.status };
                            proof {
                                lemma_group_view_push(passed@, e);
                            }
                            passed.push(e);
                        }
                    },
                    Status::FAIL => {
                        if !group_contains(&failed, &ns.name) {
                            let e = NamedStatus { name: ns.name.clone(), status: ns.status };
                            proof {
                                lemma_group_view_push(failed@, e);
                            }
                            failed.push(e);
                        }
                    },
                    Status::SKIP => {
                        if !group_contains(&skipped, &ns.name) {
                            let e = NamedStatus { name: ns.name.clone(), status: ns.status };
                            proof {
                                lemma_group_view_push(skipped@, e);
                            }
                            skipped.push(e);
                        }
                    },
                }
            },
            Option::None => {},
        }
        proof {
            let sub1 = root.children@.subrange(0, i + 1);
            assert(sub1.drop_last() =~= root.children@.subrange(0, i as int));
            assert(sub1.last() == root.children@[i as int]);
            assert(group_view(passed@) =~= group_for(sub1, Status::PASS));
            assert(group_view(failed@) =~= group_for(sub1, Status::FAIL));
            assert(group_view(skipped@) =~= group_for(sub1, Status::SKIP));
        }
        i = i + 1;
    }
    proof {
        assert(root.children@.subrange(0, n as int) =~= root.children@);
    }
    (passed, failed, skipped, longest)
}

} // verus!
