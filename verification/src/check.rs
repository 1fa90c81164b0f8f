//! The check use case: whether every dependency's declared license may be
//! included under the root package's license.

use vstd::prelude::*;

use crate::Compat;
use crate::license::can_include_spec;
use crate::load::Package;
use crate::load::declared_license_spec;

verus! {

/// The dependencies a check run looks at: every package but the root
/// itself.
pub open spec fn checked_deps(root: Package, packages: Seq<Package>) -> Seq<Package> {
    packages.filter(|p: Package| p.id@ != root.id@)
}

/// The oracle's answer for one dependency of the root.
pub open spec fn verdict_spec(root: Package, p: Package) -> Compat {
    can_include_spec(declared_license_spec(root), declared_license_spec(p))
}

/// The outcome of a check run: each dependency with the oracle's answer,
/// and how many were refused.
#[derive(Debug)]
pub struct CheckReport {
    pub verdicts: Vec<(Package, Compat)>,
    pub failures: usize,
}

/// The dependencies whose inclusion the oracle refuses.
pub open spec fn refused(root: Package, packages: Seq<Package>) -> Seq<Package> {
    checked_deps(root, packages).filter(|p: Package| verdict_spec(root, p) == Compat::No)
}

/// Checks every package against the root: each dependency (the root
/// itself is skipped) is answered by the compatibility oracle, and the
/// run fails when any answer is `No`; `Unknown` is only a warning.
pub fn run(root: &Package, packages: &Vec<Package>) -> (r: CheckReport)
    ensures
        r.verdicts@.len() == checked_deps(*root, packages@).len(),
        forall|i: int|
            0 <= i < r.verdicts@.len() ==> (#[trigger] r.verdicts@[i]).0 == checked_deps(
                *root,
                packages@,
            )[i] && r.verdicts@[i].1 == verdict_spec(*root, checked_deps(*root, packages@)[i]),
        r.failures == refused(*root, packages@).len(),
{
    let root_license = root.license();
    let mut verdicts: Vec<(Package, Compat)> = Vec::new();
    let mut failures: usize = 0;
    let n = packages.len();
    let mut i: usize = 0;
    proof {
        reveal(Seq::filter);
        assert(packages@.take(0) =~= Seq::<Package>::empty());
        assert(checked_deps(*root, packages@.take(0)) =~= Seq::<Package>::empty());
        assert(refused(*root, packages@.take(0)) =~= Seq::<Package>::empty());
    }
    while i < n
        invariant
            0 <= i <= n,
            n == packages@.len(),
            root_license@ == declared_license_spec(*root),
            verdicts@.len() == checked_deps(*root, packages@.take(i as int)).len(),
            forall|q: int|
                0 <= q < verdicts@.len() ==> (#[trigger] verdicts@[q]).0 == checked_deps(
                    *root,
                    packages@.take(i as int),
                )[q] && verdicts@[q].1 == verdict_spec(
                    *root,
                    checked_deps(*root, packages@.take(i as int))[q],
                ),
            failures == refused(*root, packages@.take(i as int)).len(),
            failures <= verdicts@.len(),
        decreases n - i,
    {
        let ghost pre = packages@.take(i as int);
        let ghost cur = packages@[i as int];
        proof {
            reveal(Seq::filter);
            assert(packages@.take(i as int + 1).drop_last() =~= pre);
            assert(packages@.take(i as int + 1).last() == cur);
        }
        let package = &packages[i];
        if !package.id.eq(&root.id) {
            let pl = package.license();
            let c = root_license.can_include(&pl);
            let cloned = package.clone();
            verdicts.push((cloned, c));
            if c == Compat::No {
                failures = failures + 1;
            }
            proof {
                reveal(Seq::filter);
                assert(checked_deps(*root, packages@.take(i as int + 1)) =~= checked_deps(
                    *root,
                    pre,
                ).push(cur));
                assert(checked_deps(*root, packages@.take(i as int + 1)).drop_last()
                    =~= checked_deps(*root, pre));
                assert(checked_deps(*root, packages@.take(i as int + 1)).last() == cur);
                assert(checked_deps(*root, packages@.take(i as int + 1)).len() > 0);
                if c == Compat::No {
                    assert(refused(*root, packages@.take(i as int + 1)) =~= refused(
                        *root,
                        pre,
                    ).push(cur));
                } else {
                    assert(refused(*root, packages@.take(i as int + 1)) =~= refused(*root, pre));
                }
            }
        } else {
            proof {
                reveal(Seq::filter);
                assert(checked_deps(*root, packages@.take(i as int + 1)) =~= checked_deps(
                    *root,
                    pre,
                ));
                assert(refused(*root, packages@.take(i as int + 1)) =~= refused(*root, pre));
            }
        }
        i = i + 1;
    }
    proof {
        assert(packages@.take(n as int) =~= packages@);
    }
    CheckReport { verdicts, failures }
}

} // verus!
