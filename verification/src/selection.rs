//! Which dependencies are reported, and which resolved package stands for
//! each of them.

use crate::package::{
    declaration_views, package_views, texts, DeclarationView, DepKind, DependencyDeclaration,
    PackageView, ResolvedPackage,
};
use crate::precedence::{number_precedence, precedence, Precedence};
use vstd::prelude::*;
use vstd::string::*;

verus! {

/// The package names of the normal dependencies among `deps`, each once, in
/// the order in which they are first declared.
pub open spec fn normal_names(deps: Seq<DeclarationView>) -> Seq<Seq<char>>
    decreases deps.len(),
{
    if deps.len() == 0 {
        Seq::empty()
    } else {
        let before = normal_names(deps.drop_last());
        let dep = deps.last();
        if dep.kind == DepKind::Normal && !before.contains(dep.package_name) {
            before.push(dep.package_name)
        } else {
            before
        }
    }
}

/// Whether `name` is among `names`.
fn holds_name(names: &Vec<String>, name: &String) -> (found: bool)
    ensures
        found == texts(names@).contains(name@),
{
    let mut i: usize = 0;
    while i < names.len()
        invariant
            i <= names.len(),
            forall|k: int| 0 <= k < i ==> texts(names@)[k] != name@,
        decreases names.len() - i,
    {
        if names[i] == *name {
            assert(texts(names@)[i as int] == name@);
            return true;
        }
        i += 1;
    }
    false
}

/// The package names of the normal dependencies among `deps`, each once, in
/// the order in which they are first declared.
pub fn distinct_normal_names(deps: &Vec<DependencyDeclaration>) -> (names: Vec<String>)
    ensures
        texts(names@) == normal_names(declaration_views(deps@)),
        forall|i: int, j: int| 0 <= i < j < names@.len() ==> names@[i]@ != names@[j]@,
{
    proof {
        lemma_normal_names(declaration_views(deps@));
    }
    let mut names: Vec<String> = Vec::new();
    let mut i: usize = 0;
    assert(declaration_views(deps@).take(0) =~= Seq::empty());
    while i < deps.len()
        invariant
            i <= deps.len(),
            texts(names@) == normal_names(declaration_views(deps@).take(i as int)),
        decreases deps.len() - i,
    {
        let ghost seen = declaration_views(deps@).take(i as int);
        let ghost next = declaration_views(deps@).take(i + 1);
        assert(next.drop_last() =~= seen);
        assert(next.last() == deps@[i as int]@);
        let dep = &deps[i];
        let ghost before = names@;
        match dep.kind {
            DepKind::Normal => {
                if !holds_name(&names, &dep.package_name) {
                    names.push(dep.package_name.clone());
                    assert(texts(names@) =~= texts(before).push(dep.package_name@));
                }
            },
            _ => {},
        }
        i += 1;
    }
    assert(declaration_views(deps@).take(i as int) =~= declaration_views(deps@));
    assert forall|i: int, j: int| 0 <= i < j < names@.len() implies names@[i]@ != names@[j]@ by {
        assert(texts(names@)[i] == names@[i]@);
        assert(texts(names@)[j] == names@[j]@);
    }
    names
}

/// Of the current choice and a candidate met after it, the one to go on
/// with, given how the current choice stands to the candidate: the current
/// one only where it is the higher of the two.
pub fn prefer(current: usize, candidate: usize, order: Precedence) -> (chosen: usize)
    ensures
        chosen == if order == Precedence::Higher {
            current
        } else {
            candidate
        },
{
    match order {
        Precedence::Higher => current,
        _ => candidate,
    }
}

/// The place in `packages` of the package that stands for `name`: among the
/// packages of that name, taken in order, each one replaces the choice made
/// so far unless that choice is the higher version. `None` where no package
/// has the name.
pub open spec fn latest(packages: Seq<PackageView>, name: Seq<char>) -> Option<int>
    decreases packages.len(),
{
    if packages.len() == 0 {
        None
    } else {
        let before = latest(packages.drop_last(), name);
        let last = packages.len() - 1;
        if packages[last].name != name {
            before
        } else {
            match before {
                None => Some(last),
                Some(i) => if precedence(packages[i].version, packages[last].version)
                    == Precedence::Higher {
                    Some(i)
                } else {
                    Some(last)
                },
            }
        }
    }
}

/// The place in `packages` of the package that stands for `name`.
pub fn latest_version(packages: &Vec<ResolvedPackage>, name: &String) -> (r: Option<usize>)
    ensures
        match r {
            Some(i) => latest(package_views(packages@), name@) == Some(i as int),
            None => latest(package_views(packages@), name@) is None,
        },
        r matches Some(i) ==> i < packages.len(),
{
    let mut best: Option<usize> = None;
    let mut i: usize = 0;
    assert(package_views(packages@).take(0) =~= Seq::empty());
    while i < packages.len()
        invariant
            i <= packages.len(),
            match best {
                Some(b) => b < i && latest(package_views(packages@).take(i as int), name@) == Some(
                    b as int,
                ),
                None => latest(package_views(packages@).take(i as int), name@) is None,
            },
        decreases packages.len() - i,
    {
        let ghost seen = package_views(packages@).take(i as int);
        let ghost next = package_views(packages@).take(i + 1);
        assert(next.drop_last() =~= seen);
        assert(next[i as int] == packages@[i as int]@);
        if packages[i].name == *name {
            best =
            match best {
                None => Some(i),
                Some(b) => {
                    assert(next[b as int] == packages@[b as int]@);
                    let order = packages[b].version.compare(&packages[i].version);
                    Some(prefer(b, i, order))
                },
            };
        }
        i += 1;
    }
    assert(package_views(packages@).take(i as int) =~= package_views(packages@));
    best
}

/// No name is reported twice, and a name is reported exactly when a normal
/// dependency declares it.
pub proof fn lemma_normal_names(deps: Seq<DeclarationView>)
    ensures
        forall|i: int, j: int|
            0 <= i < j < normal_names(deps).len() ==> normal_names(deps)[i] != normal_names(
                deps,
            )[j],
        forall|name: Seq<char>| #[trigger]
            normal_names(deps).contains(name) <==> exists|k: int|
                0 <= k < deps.len() && (#[trigger] deps[k]).kind == DepKind::Normal
                    && deps[k].package_name == name,
    decreases deps.len(),
{
    if deps.len() > 0 {
        let before = normal_names(deps.drop_last());
        let dep = deps.last();
        lemma_normal_names(deps.drop_last());
        assert forall|name: Seq<char>| #[trigger]
            normal_names(deps).contains(name) implies exists|k: int|
            0 <= k < deps.len() && (#[trigger] deps[k]).kind == DepKind::Normal
                && deps[k].package_name == name by {
            if before.contains(name) {
                let k = choose|k: int|
                    0 <= k < deps.drop_last().len() && (#[trigger] deps.drop_last()[k]).kind
                        == DepKind::Normal && deps.drop_last()[k].package_name == name;
                assert(deps[k].kind == DepKind::Normal && deps[k].package_name == name);
            } else {
                let at = choose|at: int|
                    0 <= at < normal_names(deps).len() && normal_names(deps)[at] == name;
                assert(at == before.len());
                assert(deps[deps.len() - 1].kind == DepKind::Normal);
            }
        }
        assert forall|name: Seq<char>|
            (exists|k: int|
                0 <= k < deps.len() && (#[trigger] deps[k]).kind == DepKind::Normal
                    && deps[k].package_name == name) implies #[trigger] normal_names(
            deps,
        ).contains(name) by {
            let k = choose|k: int|
                0 <= k < deps.len() && (#[trigger] deps[k]).kind == DepKind::Normal
                    && deps[k].package_name == name;
            if k < deps.len() - 1 {
                assert(deps.drop_last()[k].kind == DepKind::Normal);
                assert(before.contains(name));
                let at = choose|at: int| 0 <= at < before.len() && before[at] == name;
                assert(normal_names(deps)[at] == name);
            } else if before.contains(name) {
                let at = choose|at: int| 0 <= at < before.len() && before[at] == name;
                assert(normal_names(deps)[at] == name);
            } else {
                assert(normal_names(deps)[before.len() as int] == name);
            }
        }
    }
}

/// Declaring a dependency once more changes nothing: neither does a
/// declaration that is not a normal one.
pub proof fn lemma_repeated_declaration(deps: Seq<DeclarationView>, again: DeclarationView)
    requires
        again.kind != DepKind::Normal || exists|k: int|
            0 <= k < deps.len() && (#[trigger] deps[k]).kind == DepKind::Normal
                && deps[k].package_name == again.package_name,
    ensures
        normal_names(deps.push(again)) == normal_names(deps),
{
    lemma_normal_names(deps);
    assert(deps.push(again).drop_last() =~= deps);
    if again.kind == DepKind::Normal {
        assert(normal_names(deps).contains(again.package_name));
    }
}

/// The package that stands for a name has that name, and one stands for
/// the name exactly when some package has it.
pub proof fn lemma_latest_has_name(packages: Seq<PackageView>, name: Seq<char>)
    ensures
        latest(packages, name) matches Some(i) ==> 0 <= i < packages.len() && packages[i].name
            == name,
        latest(packages, name) is None <==> forall|j: int|
            0 <= j < packages.len() ==> (#[trigger] packages[j]).name != name,
    decreases packages.len(),
{
    if packages.len() > 0 {
        lemma_latest_has_name(packages.drop_last(), name);
        if latest(packages, name) is None {
            assert forall|j: int| 0 <= j < packages.len() implies (#[trigger] packages[j]).name
                != name by {
                if j < packages.len() - 1 {
                    assert(packages.drop_last()[j].name != name);
                }
            }
        } else if latest(packages.drop_last(), name) is None {
            assert(packages[packages.len() - 1].name == name);
        } else {
            let i = latest(packages.drop_last(), name)->0;
            assert(packages.drop_last()[i].name == name);
        }
    }
}

/// Among the packages called `name`, taken two or three at a time, the
/// versions are ranked without contradiction: of two different packages
/// one is higher exactly when the other is lower, and a package that is not
/// higher than a second, which is not higher than a third, is not higher
/// than the third.
pub open spec fn ranked_consistently(packages: Seq<PackageView>, name: Seq<char>) -> bool {
    &&& forall|i: int, j: int|
        #![trigger packages[i], packages[j]]
        0 <= i < packages.len() && 0 <= j < packages.len() && i != j && packages[i].name == name
            && packages[j].name == name ==> (precedence(packages[i].version, packages[j].version)
            == Precedence::Higher <==> precedence(packages[j].version, packages[i].version)
            == Precedence::Lower)
    &&& forall|i: int, j: int, k: int|
        #![trigger packages[i], packages[j], packages[k]]
        0 <= i < packages.len() && 0 <= j < packages.len() && 0 <= k < packages.len() && i != j
            && j != k && i != k && packages[i].name == name && packages[j].name == name
            && packages[k].name == name && precedence(packages[i].version, packages[j].version)
            != Precedence::Higher && precedence(packages[j].version, packages[k].version)
            != Precedence::Higher ==> precedence(packages[i].version, packages[k].version)
            != Precedence::Higher
}

/// Where the versions are ranked without contradiction, the package that
/// stands for a name is the highest of that name: no other package of the
/// name is higher.
pub proof fn lemma_latest_is_highest(packages: Seq<PackageView>, name: Seq<char>)
    requires
        ranked_consistently(packages, name),
    ensures
        latest(packages, name) matches Some(i) ==> forall|j: int|
            0 <= j < packages.len() && j != i && (#[trigger] packages[j]).name == name
                ==> precedence(packages[j].version, packages[i].version) != Precedence::Higher,
    decreases packages.len(),
{
    if packages.len() > 0 {
        let before = packages.drop_last();
        let last = packages.len() - 1;
        assert(ranked_consistently(before, name)) by {
            assert forall|i: int, j: int|
                #![trigger before[i], before[j]]
                0 <= i < before.len() && 0 <= j < before.len() && i != j && before[i].name == name
                    && before[j].name == name implies (precedence(
                before[i].version,
                before[j].version,
            ) == Precedence::Higher <==> precedence(before[j].version, before[i].version)
                == Precedence::Lower) by {
                assert(before[i] == packages[i] && before[j] == packages[j]);
            }
            assert forall|i: int, j: int, k: int|
                #![trigger before[i], before[j], before[k]]
                0 <= i < before.len() && 0 <= j < before.len() && 0 <= k < before.len() && i != j
                    && j != k && i != k && before[i].name == name && before[j].name == name
                    && before[k].name == name && precedence(before[i].version, before[j].version)
                    != Precedence::Higher && precedence(before[j].version, before[k].version)
                    != Precedence::Higher implies precedence(before[i].version, before[k].version)
                != Precedence::Higher by {
                assert(before[i] == packages[i] && before[j] == packages[j] && before[k]
                    == packages[k]);
            }
        }
        lemma_latest_is_highest(before, name);
        lemma_latest_has_name(before, name);
        if packages[last].name == name {
            match latest(before, name) {
                None => {
                    assert forall|j: int|
                        0 <= j < packages.len() && j != last && (#[trigger] packages[j]).name
                            == name implies false by {
                        assert(before[j].name != name);
                    }
                },
                Some(b) => {
                    assert(before[b] == packages[b]);
                    if precedence(packages[b].version, packages[last].version)
                        == Precedence::Higher {
                        assert forall|j: int|
                            0 <= j < packages.len() && j != b && (#[trigger] packages[j]).name
                                == name implies precedence(packages[j].version, packages[b].version)
                            != Precedence::Higher by {
                            if j < last {
                                assert(before[j] == packages[j]);
                            } else {
                                assert(packages[last] == packages[j] && packages[b]
                                    == packages[b]);
                            }
                        }
                    } else {
                        assert forall|j: int|
                            0 <= j < packages.len() && j != last && (#[trigger] packages[j]).name
                                == name implies precedence(
                            packages[j].version,
                            packages[last].version,
                        ) != Precedence::Higher by {
                            assert(before[j] == packages[j]);
                            if j != b {
                                assert(precedence(packages[j].version, packages[b].version)
                                    != Precedence::Higher);
                                assert(packages[j] == packages[j] && packages[b] == packages[b]
                                    && packages[last] == packages[last]);
                            }
                        }
                    }
                },
            }
        } else {
            match latest(before, name) {
                None => {},
                Some(b) => {
                    assert forall|j: int|
                        0 <= j < packages.len() && j != b && (#[trigger] packages[j]).name
                            == name implies precedence(packages[j].version, packages[b].version)
                        != Precedence::Higher by {
                        assert(before[j] == packages[j]);
                        assert(before[b] == packages[b]);
                    }
                },
            }
        }
    }
}

/// Packages of one name that differ from each other in their three numbers
/// are ranked without contradiction: the numbers alone decide.
pub proof fn lemma_distinct_numbers_are_ranked(packages: Seq<PackageView>, name: Seq<char>)
    requires
        forall|i: int, j: int|
            #![trigger packages[i], packages[j]]
            0 <= i < packages.len() && 0 <= j < packages.len() && i != j && packages[i].name
                == name && packages[j].name == name ==> number_precedence(
                packages[i].version,
                packages[j].version,
            ) != Precedence::Same,
    ensures
        ranked_consistently(packages, name),
{
    assert forall|i: int, j: int, k: int|
        #![trigger packages[i], packages[j], packages[k]]
        0 <= i < packages.len() && 0 <= j < packages.len() && 0 <= k < packages.len() && i != j
            && j != k && i != k && packages[i].name == name && packages[j].name == name
            && packages[k].name == name && precedence(packages[i].version, packages[j].version)
            != Precedence::Higher && precedence(packages[j].version, packages[k].version)
            != Precedence::Higher implies precedence(packages[i].version, packages[k].version)
        != Precedence::Higher by {
        assert(number_precedence(packages[i].version, packages[j].version) != Precedence::Same);
        assert(number_precedence(packages[j].version, packages[k].version) != Precedence::Same);
        assert(number_precedence(packages[i].version, packages[k].version) != Precedence::Same);
    }
}

/// Of two packages of one name, the higher version stands for the name,
/// whichever of the two comes first.
pub proof fn lemma_latest_of_two(lower: PackageView, higher: PackageView)
    requires
        lower.name == higher.name,
        precedence(lower.version, higher.version) == Precedence::Lower,
        precedence(higher.version, lower.version) == Precedence::Higher,
    ensures
        latest(seq![lower, higher], higher.name) == Some(1int),
        latest(seq![higher, lower], higher.name) == Some(0int),
{
    let name = higher.name;
    let a = seq![lower, higher];
    let b = seq![higher, lower];
    assert(a.drop_last() =~= seq![lower]);
    assert(b.drop_last() =~= seq![higher]);
    assert(seq![lower].drop_last() =~= Seq::<PackageView>::empty());
    assert(seq![higher].drop_last() =~= Seq::<PackageView>::empty());
    assert(latest(Seq::<PackageView>::empty(), name) is None);
    assert(latest(seq![lower], name) == Some(0int));
    assert(latest(seq![higher], name) == Some(0int));
}

} // verus!
