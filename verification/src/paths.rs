//! Paths as the names of their components.

use vstd::prelude::*;
use vstd::string::*;

use crate::text::{same_text, texts};

verus! {

/// How many components two paths share from the start.
pub open spec fn shared(left: Seq<Seq<char>>, right: Seq<Seq<char>>) -> nat
    decreases left.len(),
{
    if left.len() > 0 && right.len() > 0 && left[0] == right[0] {
        1 + shared(left.drop_first(), right.drop_first())
    } else {
        0
    }
}

/// So many steps to the parent.
pub open spec fn ascents(count: nat) -> Seq<Seq<char>> {
    Seq::new(count, |index: int| ".."@)
}

/// The path from `base` to `target`, where they share their first component.
pub open spec fn relative_path(target: Seq<Seq<char>>, base: Seq<Seq<char>>) -> Option<Seq<Seq<char>>> {
    let common = shared(target, base);
    if common == 0 {
        None
    } else {
        Some(ascents((base.len() - common) as nat) + target.skip(common as int))
    }
}

/// Where `path` leads from `base`.
pub open spec fn followed(base: Seq<Seq<char>>, path: Seq<Seq<char>>) -> Seq<Seq<char>>
    decreases path.len(),
{
    if path.len() == 0 {
        base
    } else {
        let before = followed(base, path.drop_last());
        if path.last() == ".."@ && before.len() > 0 {
            before.drop_last()
        } else {
            before.push(path.last())
        }
    }
}

proof fn lemma_shared(left: Seq<Seq<char>>, right: Seq<Seq<char>>, count: nat)
    requires
        count <= left.len(),
        count <= right.len(),
        left.take(count as int) == right.take(count as int),
        count < left.len() && count < right.len() ==> left[count as int] != right[count as int],
    ensures
        shared(left, right) == count,
    decreases count,
{
    if count > 0 {
        assert(left.take(count as int)[0] == right.take(count as int)[0]);
        let rest = (count - 1) as nat;
        assert(left.drop_first().take(rest as int) =~= left.take(count as int).drop_first());
        assert(right.drop_first().take(rest as int) =~= right.take(count as int).drop_first());
        lemma_shared(left.drop_first(), right.drop_first(), rest);
    }
}

proof fn lemma_shared_prefix(left: Seq<Seq<char>>, right: Seq<Seq<char>>)
    ensures
        shared(left, right) <= left.len(),
        shared(left, right) <= right.len(),
        left.take(shared(left, right) as int) == right.take(shared(left, right) as int),
    decreases left.len(),
{
    let count = shared(left, right);
    if left.len() > 0 && right.len() > 0 && left[0] == right[0] {
        lemma_shared_prefix(left.drop_first(), right.drop_first());
        let rest = count - 1;
        assert(left.take(count as int) =~= seq![left[0]] + left.drop_first().take(rest));
        assert(right.take(count as int) =~= seq![right[0]] + right.drop_first().take(rest));
    } else {
        assert(left.take(0) =~= right.take(0));
    }
}

proof fn lemma_ascents(base: Seq<Seq<char>>, count: nat)
    requires
        count <= base.len(),
    ensures
        followed(base, ascents(count)) == base.take(base.len() - count),
    decreases count,
{
    if count == 0 {
        assert(base.take(base.len() as int) =~= base);
    } else {
        let rest = (count - 1) as nat;
        lemma_ascents(base, rest);
        assert(ascents(count).drop_last() =~= ascents(rest));
        assert(base.take(base.len() - rest).drop_last() =~= base.take(base.len() - count));
    }
}

proof fn lemma_descent(base: Seq<Seq<char>>, path: Seq<Seq<char>>, descent: Seq<Seq<char>>)
    requires
        forall|index: int| 0 <= index < descent.len() ==> #[trigger] descent[index] != ".."@,
    ensures
        followed(base, path + descent) == followed(base, path) + descent,
    decreases descent.len(),
{
    if descent.len() == 0 {
        assert(path + descent =~= path);
        assert(followed(base, path) + descent =~= followed(base, path));
    } else {
        lemma_descent(base, path, descent.drop_last());
        assert((path + descent).drop_last() =~= path + descent.drop_last());
        assert((path + descent).last() == descent[descent.len() - 1]);
        assert(followed(base, path) + descent =~= (followed(base, path) + descent.drop_last()).push(descent.last()));
    }
}

/// A relative path leads from the base to the target, where the target itself takes
/// no step to a parent.
pub proof fn law_relative_path_leads_to_target(target: Seq<Seq<char>>, base: Seq<Seq<char>>)
    requires
        forall|index: int| 0 <= index < target.len() ==> #[trigger] target[index] != ".."@,
    ensures
        relative_path(target, base) matches Some(path) ==> followed(base, path) == target,
{
    let common = shared(target, base);
    if common > 0 {
        lemma_shared_prefix(target, base);
        let steps = (base.len() - common) as nat;
        lemma_ascents(base, steps);
        lemma_descent(base, ascents(steps), target.skip(common as int));
        assert(target =~= target.take(common as int) + target.skip(common as int));
    }
}

/// Returns the path from `base` to `target`. Paths on different roots have none.
pub fn relative_to(target: &Vec<String>, base: &Vec<String>) -> (path: Option<Vec<String>>)
    ensures
        match path {
            Some(path) => relative_path(texts(target@), texts(base@)) == Some(texts(path@)),
            None => relative_path(texts(target@), texts(base@)) is None,
        },
{
    let ghost left = texts(target@);
    let ghost right = texts(base@);
    let mut common: usize = 0;
    assert(left.take(0) =~= right.take(0));
    while common < target.len() && common < base.len() && same_text(target[common].as_str(), base[common].as_str())
        invariant
            common <= target.len(),
            common <= base.len(),
            left == texts(target@),
            right == texts(base@),
            left.take(common as int) == right.take(common as int),
        decreases target.len() - common,
    {
        assert(left.take(common + 1) =~= left.take(common as int).push(left[common as int]));
        assert(right.take(common + 1) =~= right.take(common as int).push(right[common as int]));
        common += 1;
    }
    proof {
        lemma_shared(left, right, common as nat);
    }
    if common == 0 {
        return None;
    }
    let mut path: Vec<String> = Vec::new();
    let mut step: usize = common;
    assert(texts(path@) =~= ascents(0));
    while step < base.len()
        invariant
            common <= step <= base.len(),
            texts(path@) == ascents((step - common) as nat),
        decreases base.len() - step,
    {
        let ghost before = path@;
        path.push("..".to_owned());
        assert(texts(path@) =~= texts(before).push(".."@));
        assert(texts(path@) =~= ascents((step - common + 1) as nat));
        step += 1;
    }
    let ghost climbed = texts(path@);
    let mut index: usize = common;
    assert(climbed + left.subrange(common as int, common as int) =~= climbed);
    while index < target.len()
        invariant
            common <= index <= target.len(),
            left == texts(target@),
            texts(path@) == climbed + left.subrange(common as int, index as int),
        decreases target.len() - index,
    {
        let ghost before = path@;
        path.push(target[index].clone());
        assert(texts(path@) =~= texts(before).push(left[index as int]));
        assert(texts(path@) =~= climbed + left.subrange(common as int, index + 1));
        index += 1;
    }
    assert(left.subrange(common as int, left.len() as int) =~= left.skip(common as int));
    Some(path)
}

/// What two paths share is the longest beginning that both have.
pub proof fn law_shared_beginnings(left: Seq<Seq<char>>, right: Seq<Seq<char>>)
    ensures
        ({
            let count = shared(left, right) as int;
            &&& count <= left.len() && count <= right.len()
            &&& left.take(count) == right.take(count)
            &&& count < left.len() && count < right.len() ==> left[count] != right[count]
        }),
    decreases left.len(),
{
    if left.len() > 0 && right.len() > 0 && left[0] == right[0] {
        let count = shared(left, right) as int;
        law_shared_beginnings(left.drop_first(), right.drop_first());
        assert forall|i: int| 0 <= i < count implies left.take(count)[i] == right.take(count)[i] by {
            if i > 0 {
                assert(left.drop_first().take(count - 1)[i - 1] == right.drop_first().take(count - 1)[i - 1]);
            }
        }
        assert(left.take(count) =~= right.take(count));
        if count < left.len() && count < right.len() {
            assert(left.drop_first()[count - 1] == left[count]);
            assert(right.drop_first()[count - 1] == right[count]);
        }
    } else {
        assert(left.take(0) =~= right.take(0));
    }
}

/// There is a path from one place to another exactly where both stand on one root; it climbs
/// no further than it has to.
pub proof fn law_paths_between_places(target: Seq<Seq<char>>, base: Seq<Seq<char>>)
    ensures
        relative_path(target, base) is Some <==> target.len() > 0 && base.len() > 0 && target[0] == base[0],
        relative_path(target, base) matches Some(path) ==> {
            let common = shared(target, base) as int;
            &&& path.len() == (base.len() - common) + (target.len() - common)
            &&& forall|i: int| 0 <= i < base.len() - common ==> #[trigger] path[i] == seq!['.', '.']
            &&& path.skip(base.len() - common) == target.skip(common)
        },
{
    reveal_strlit("..");
    assert(".."@ =~= seq!['.', '.']);
    law_shared_beginnings(target, base);
    if let Some(path) = relative_path(target, base) {
        let common = shared(target, base) as int;
        assert(path.skip(base.len() - common) =~= target.skip(common));
    }
}

} // verus!
