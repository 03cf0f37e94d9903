//! The initial values of the runs of an experiment.
//!
//! Every model of a tree has one initial value or several to choose from.
//! An experiment runs once for every way to choose one value for each
//! model. The ways are counted as an odometer counts: each model is a
//! wheel with a digit for each of its values, the wheels stand in the
//! order in which the tree is walked level by level, and the last wheel
//! turns fastest.

use crate::errors::ExdsdevsError;
use crate::model::{Model, ModelView};
use crate::names::names_view;
use crate::simulator::Shape;
use serde_json::Value;
use vstd::prelude::*;

verus! {

/// The number of ways to choose one digit for each wheel, where the wheel
/// at place `i` has `sizes[i]` digits: the product of the sizes.
pub open spec fn ways(sizes: Seq<usize>) -> nat
    decreases sizes.len(),
{
    if sizes.len() == 0 {
        1
    } else {
        ways(sizes.drop_last()) * (sizes.last() as nat)
    }
}

/// Whether `digits` is a way to choose: one digit for each wheel, each
/// below the size of its wheel.
pub open spec fn chosen(sizes: Seq<usize>, digits: Seq<usize>) -> bool {
    &&& digits.len() == sizes.len()
    &&& forall|i: int| 0 <= i < sizes.len() ==> #[trigger] digits[i] < sizes[i]
}

/// The number that an odometer shows: the last digit counts ones, the
/// digit before it counts turns of the last wheel, and so on.
pub open spec fn shown(sizes: Seq<usize>, digits: Seq<usize>) -> nat
    decreases sizes.len(),
{
    if sizes.len() == 0 || digits.len() != sizes.len() {
        0
    } else {
        shown(sizes.drop_last(), digits.drop_last()) * (sizes.last() as nat) + (
        digits.last() as nat)
    }
}

/// An odometer shows a number below the number of ways.
pub proof fn shown_is_below_ways(sizes: Seq<usize>, digits: Seq<usize>)
    requires
        chosen(sizes, digits),
    ensures
        shown(sizes, digits) < ways(sizes),
    decreases sizes.len(),
{
    if sizes.len() > 0 {
        let front = sizes.drop_last();
        let head = digits.drop_last();
        assert(chosen(front, head)) by {
            assert forall|i: int| 0 <= i < front.len() implies #[trigger] head[i] < front[i] by {
                assert(digits[i] < sizes[i]);
            }
        }
        shown_is_below_ways(front, head);
        let a = shown(front, head);
        let b = ways(front);
        let r = sizes.last() as nat;
        let d = digits.last() as nat;
        assert(digits[sizes.len() - 1] < sizes[sizes.len() - 1]);
        assert(a * r + d < b * r) by (nonlinear_arith)
            requires
                a < b,
                d < r,
        ;
    }
}

/// Two ways to choose that show the same number are the same way: every
/// number below the number of ways stands for one way.
pub proof fn shown_tells_the_digits(sizes: Seq<usize>, first: Seq<usize>, second: Seq<usize>)
    requires
        chosen(sizes, first),
        chosen(sizes, second),
        shown(sizes, first) == shown(sizes, second),
    ensures
        first == second,
    decreases sizes.len(),
{
    if sizes.len() > 0 {
        let front = sizes.drop_last();
        let n = sizes.len() - 1;
        assert(chosen(front, first.drop_last())) by {
            assert forall|i: int| 0 <= i < front.len() implies #[trigger] first.drop_last()[i]
                < front[i] by {
                assert(first[i] < sizes[i]);
            }
        }
        assert(chosen(front, second.drop_last())) by {
            assert forall|i: int| 0 <= i < front.len() implies #[trigger] second.drop_last()[i]
                < front[i] by {
                assert(second[i] < sizes[i]);
            }
        }
        let a1 = shown(front, first.drop_last());
        let a2 = shown(front, second.drop_last());
        let r = sizes.last() as nat;
        let d1 = first.last() as nat;
        let d2 = second.last() as nat;
        assert(first[n] < sizes[n]);
        assert(second[n] < sizes[n]);
        assert(a1 == a2 && d1 == d2) by (nonlinear_arith)
            requires
                a1 * r + d1 == a2 * r + d2,
                d1 < r,
                d2 < r,
        ;
        shown_tells_the_digits(front, first.drop_last(), second.drop_last());
        assert(first =~= first.drop_last().push(first.last()));
        assert(second =~= second.drop_last().push(second.last()));
    } else {
        assert(first =~= second);
    }
}

/// Whether `after` is what an odometer shows one step after `before`, when
/// the wheel at place `at` is the one that moves on: it shows one digit
/// more, the wheels in front of it stand still, and the wheels behind it,
/// which were at their last digit, are at zero.
pub open spec fn stepped(sizes: Seq<usize>, before: Seq<usize>, after: Seq<usize>, at: int) -> bool {
    &&& 0 <= at < sizes.len()
    &&& after.len() == before.len()
    &&& forall|i: int| 0 <= i < at ==> after[i] == before[i]
    &&& after[at] == before[at] + 1
    &&& forall|i: int| at < i < sizes.len() ==> before[i] + 1 == sizes[i] && after[i] == 0
}

/// An odometer that makes a step shows the next number.
pub proof fn a_step_counts_one(sizes: Seq<usize>, before: Seq<usize>, after: Seq<usize>, at: int)
    requires
        chosen(sizes, before),
        chosen(sizes, after),
        stepped(sizes, before, after, at),
    ensures
        shown(sizes, after) == shown(sizes, before) + 1,
    decreases sizes.len(),
{
    let n = sizes.len() - 1;
    let front = sizes.drop_last();
    if at == n {
        assert(after.drop_last() =~= before.drop_last());
    } else {
        assert(chosen(front, before.drop_last())) by {
            assert forall|i: int| 0 <= i < front.len() implies #[trigger] before.drop_last()[i]
                < front[i] by {
                assert(before[i] < sizes[i]);
            }
        }
        assert(chosen(front, after.drop_last())) by {
            assert forall|i: int| 0 <= i < front.len() implies #[trigger] after.drop_last()[i]
                < front[i] by {
                assert(after[i] < sizes[i]);
            }
        }
        assert(stepped(front, before.drop_last(), after.drop_last(), at));
        a_step_counts_one(front, before.drop_last(), after.drop_last(), at);
        let a = shown(front, before.drop_last());
        let r = sizes.last() as nat;
        assert(before[n] + 1 == sizes[n] && after[n] == 0);
        assert((a + 1) * r + 0 == a * r + (r - 1) + 1) by (nonlinear_arith);
    }
}

/// An odometer whose wheels are all at their last digit shows the last
/// number: one less than the number of ways.
pub proof fn all_last_digits_show_the_last_number(sizes: Seq<usize>, digits: Seq<usize>)
    requires
        chosen(sizes, digits),
        forall|i: int| 0 <= i < sizes.len() ==> #[trigger] digits[i] + 1 == sizes[i],
    ensures
        shown(sizes, digits) + 1 == ways(sizes),
    decreases sizes.len(),
{
    if sizes.len() > 0 {
        let n = sizes.len() - 1;
        let front = sizes.drop_last();
        let head = digits.drop_last();
        assert(chosen(front, head)) by {
            assert forall|i: int| 0 <= i < front.len() implies #[trigger] head[i] < front[i] by {
                assert(digits[i] < sizes[i]);
            }
        }
        assert forall|i: int| 0 <= i < front.len() implies #[trigger] head[i] + 1 == front[i] by {
            assert(digits[i] + 1 == sizes[i]);
        }
        all_last_digits_show_the_last_number(front, head);
        let a = shown(front, head);
        let r = sizes.last() as nat;
        assert(digits[n] + 1 == sizes[n]);
        assert(a * r + (r - 1) + 1 == (a + 1) * r) by (nonlinear_arith);
    }
}

/// An odometer at zero shows zero.
pub proof fn zeros_show_zero(sizes: Seq<usize>, digits: Seq<usize>)
    requires
        digits.len() == sizes.len(),
        forall|i: int| 0 <= i < digits.len() ==> #[trigger] digits[i] == 0,
    ensures
        shown(sizes, digits) == 0,
    decreases sizes.len(),
{
    if sizes.len() > 0 {
        assert forall|i: int| 0 <= i < digits.drop_last().len() implies #[trigger] digits.drop_last()[i]
            == 0 by {
            assert(digits[i] == 0);
        }
        zeros_show_zero(sizes.drop_last(), digits.drop_last());
        assert(digits[digits.len() - 1] == 0);
        let a = shown(sizes.drop_last(), digits.drop_last());
        let r = sizes.last() as nat;
        assert(a * r == 0) by (nonlinear_arith)
            requires
                a == 0,
        ;
    }
}

/// The number of ways to choose, or `None` where a `u64` cannot hold it.
pub fn count_ways(sizes: &Vec<usize>) -> (count: Option<u64>)
    ensures
        match count {
            Some(n) => n == ways(sizes@),
            None => ways(sizes@) > u64::MAX,
        },
{
    let mut k: usize = 0;
    while k < sizes.len()
        invariant
            k <= sizes@.len(),
            forall|j: int| 0 <= j < k ==> #[trigger] sizes@[j] > 0,
        decreases sizes@.len() - k,
    {
        if sizes[k] == 0 {
            proof {
                zero_size_leaves_no_way(sizes@, k as int);
            }
            return Some(0);
        }
        k += 1;
    }
    let mut count: u64 = 1;
    let mut i: usize = 0;
    proof {
        assert(sizes@.take(0) =~= Seq::empty());
    }
    while i < sizes.len()
        invariant
            i <= sizes@.len(),
            forall|j: int| 0 <= j < sizes@.len() ==> #[trigger] sizes@[j] > 0,
            count == ways(sizes@.take(i as int)),
        decreases sizes@.len() - i,
    {
        let size = sizes[i];
        proof {
            assert(sizes@.take(i + 1).drop_last() =~= sizes@.take(i as int));
            assert(sizes@.take(i + 1).last() == size);
        }
        match count.checked_mul(size as u64) {
            Some(product) => {
                count = product;
            },
            None => {
                proof {
                    ways_grow(sizes@, i + 1);
                }
                return None;
            },
        }
        i += 1;
    }
    proof {
        assert(sizes@.take(sizes@.len() as int) =~= sizes@);
    }
    Some(count)
}

/// A wheel without digits leaves no way to choose.
pub proof fn zero_size_leaves_no_way(sizes: Seq<usize>, at: int)
    requires
        0 <= at < sizes.len(),
        sizes[at] == 0,
    ensures
        ways(sizes) == 0,
    decreases sizes.len(),
{
    let n = sizes.len() - 1;
    if at < n {
        zero_size_leaves_no_way(sizes.drop_last(), at);
        let a = ways(sizes.drop_last());
        let r = sizes.last() as nat;
        assert(a * r == 0) by (nonlinear_arith)
            requires
                a == 0,
        ;
    } else {
        let a = ways(sizes.drop_last());
        let r = sizes.last() as nat;
        assert(a * r == 0) by (nonlinear_arith)
            requires
                r == 0,
        ;
    }
}

/// Where every wheel has a digit, more wheels give at least as many ways.
pub proof fn ways_grow(sizes: Seq<usize>, n: int)
    requires
        0 <= n <= sizes.len(),
        forall|i: int| 0 <= i < sizes.len() ==> #[trigger] sizes[i] > 0,
    ensures
        ways(sizes.take(n)) <= ways(sizes),
        ways(sizes) > 0,
    decreases sizes.len() - n,
{
    if n < sizes.len() {
        ways_grow(sizes, n + 1);
        assert(sizes.take(n + 1).drop_last() =~= sizes.take(n));
        let a = ways(sizes.take(n));
        let r = sizes[n] as nat;
        assert(a <= a * r) by (nonlinear_arith)
            requires
                r > 0,
        ;
    } else {
        assert(sizes.take(n) =~= sizes);
        positive_sizes_leave_a_way(sizes);
    }
}

/// Where every wheel has a digit, there is a way to choose.
pub proof fn positive_sizes_leave_a_way(sizes: Seq<usize>)
    requires
        forall|i: int| 0 <= i < sizes.len() ==> #[trigger] sizes[i] > 0,
    ensures
        ways(sizes) > 0,
    decreases sizes.len(),
{
    if sizes.len() > 0 {
        assert forall|i: int| 0 <= i < sizes.drop_last().len() implies #[trigger] sizes.drop_last()[i]
            > 0 by {
            assert(sizes[i] > 0);
        }
        positive_sizes_leave_a_way(sizes.drop_last());
        let a = ways(sizes.drop_last());
        let r = sizes.last() as nat;
        assert(sizes[sizes.len() - 1] > 0);
        assert(a * r > 0) by (nonlinear_arith)
            requires
                a > 0,
                r > 0,
        ;
    }
}

/// A model on the walk through a tree, and its full name.
pub struct Stop {
    pub model: ModelView,
    pub path: Seq<char>,
}

/// The first `n` children of the model at `stop`, in their order.
pub open spec fn stops_below(stop: Stop, n: int) -> Seq<Stop>
    decreases n,
{
    if n <= 0 || n > stop.model.children.len() || n > stop.model.child_names.len() {
        Seq::empty()
    } else {
        stops_below(stop, n - 1).push(
            Stop {
                model: stop.model.children[n - 1],
                path: Shape::child_full_name(stop.path, stop.model.child_names[n - 1]),
            },
        )
    }
}

/// The children of the models of `level`, in the order of their parents.
pub open spec fn next_level(level: Seq<Stop>) -> Seq<Stop>
    decreases level.len(),
{
    if level.len() == 0 {
        Seq::empty()
    } else {
        next_level(level.drop_last()) + stops_below(
            level.last(),
            level.last().model.children.len() as int,
        )
    }
}

/// The height of the tallest among the first `n` of `children`.
pub open spec fn tallest(children: Seq<ModelView>, n: int) -> nat
    decreases children, n,
{
    if n <= 0 || n > children.len() {
        0
    } else {
        let before = tallest(children, n - 1);
        let last = height(children[n - 1]);
        if before < last {
            last
        } else {
            before
        }
    }
}

/// The number of levels of the tree of `model`.
pub open spec fn height(model: ModelView) -> nat
    decreases model,
{
    1 + tallest(model.children, model.children.len() as int)
}

/// The models of `level`, then their children, then the children of
/// those, and so on, for `depth` levels.
pub open spec fn walk(level: Seq<Stop>, depth: nat) -> Seq<Stop>
    decreases depth,
{
    if depth == 0 {
        Seq::empty()
    } else {
        level + walk(next_level(level), (depth - 1) as nat)
    }
}

/// The models of the tree of `model`, level by level from the root, the
/// models of a level in the order of their parents and, under one parent,
/// in the order of their names.
pub open spec fn breadth_first(model: ModelView, path: Seq<char>) -> Seq<Stop> {
    walk(seq![Stop { model, path }], height(model))
}

/// The full names of the models of a walk.
pub open spec fn paths_of(stops: Seq<Stop>) -> Seq<Seq<char>> {
    Seq::new(stops.len(), |i: int| stops[i].path)
}

/// The initial values to choose from, for each model of a walk.
pub open spec fn choices_of(stops: Seq<Stop>) -> Seq<Seq<Value>> {
    Seq::new(stops.len(), |i: int| stops[i].model.choices())
}

/// Whether no model of `level` has a tree of more than `depth` levels.
pub open spec fn fits_depth(level: Seq<Stop>, depth: nat) -> bool {
    forall|i: int| 0 <= i < level.len() ==> height((#[trigger] level[i]).model) <= depth
}

/// A child is less tall than its parent.
pub proof fn child_is_less_tall(children: Seq<ModelView>, n: int, i: int)
    requires
        0 <= i < n <= children.len(),
    ensures
        height(children[i]) <= tallest(children, n),
    decreases n,
{
    reveal_with_fuel(tallest, 2);
    if i < n - 1 {
        child_is_less_tall(children, n - 1, i);
    }
}

/// The children of a model are its children, one for one.
pub proof fn stops_below_unfold(stop: Stop, n: int)
    requires
        0 <= n <= stop.model.children.len(),
        stop.model.children.len() == stop.model.child_names.len(),
    ensures
        stops_below(stop, n).len() == n,
        forall|i: int|
            0 <= i < n ==> #[trigger] stops_below(stop, n)[i] == (Stop {
                model: stop.model.children[i],
                path: Shape::child_full_name(stop.path, stop.model.child_names[i]),
            }),
    decreases n,
{
    if n > 0 {
        stops_below_unfold(stop, n - 1);
    }
}

/// The level below a level of trees with at most `depth + 1` levels holds
/// trees with at most `depth` levels.
pub proof fn next_level_is_less_deep(level: Seq<Stop>, depth: nat)
    requires
        fits_depth(level, depth + 1),
        forall|i: int|
            0 <= i < level.len() ==> (#[trigger] level[i]).model.children.len()
                == level[i].model.child_names.len(),
    ensures
        fits_depth(next_level(level), depth),
    decreases level.len(),
{
    if level.len() > 0 {
        let front = level.drop_last();
        let last = level.last();
        assert(fits_depth(front, depth + 1)) by {
            assert forall|i: int| 0 <= i < front.len() implies height((#[trigger] front[i]).model)
                <= depth + 1 by {
                assert(front[i] == level[i]);
            }
        }
        assert forall|i: int| 0 <= i < front.len() implies (#[trigger] front[i]).model.children.len()
            == front[i].model.child_names.len() by {
            assert(front[i] == level[i]);
        }
        next_level_is_less_deep(front, depth);
        let below = stops_below(last, last.model.children.len() as int);
        assert(last == level[level.len() - 1]);
        stops_below_unfold(last, last.model.children.len() as int);
        assert forall|i: int| 0 <= i < next_level(level).len() implies height(
            (#[trigger] next_level(level)[i]).model,
        ) <= depth by {
            if i < next_level(front).len() {
                assert(next_level(level)[i] == next_level(front)[i]);
            } else {
                let k = i - next_level(front).len();
                assert(next_level(level)[i] == below[k]);
                child_is_less_tall(last.model.children, last.model.children.len() as int, k);
                assert(height(last.model) <= depth + 1);
            }
        }
    }
}

/// A walk from no model visits no model.
pub proof fn walk_of_nothing(depth: nat)
    ensures
        walk(Seq::empty(), depth) == Seq::<Stop>::empty(),
    decreases depth,
{
    if depth > 0 {
        walk_of_nothing((depth - 1) as nat);
        assert(next_level(Seq::<Stop>::empty()) =~= Seq::<Stop>::empty());
        assert(walk(Seq::empty(), depth) =~= Seq::<Stop>::empty());
    }
}

/// The models of a level of the walk, as they are held while the tree is
/// walked: each with its full name.
pub open spec fn level_view(level: Seq<(&Model, String)>) -> Seq<Stop> {
    Seq::new(level.len(), |i: int| Stop { model: level[i].0@, path: level[i].1@ })
}

/// The sizes of the wheels of an odometer over `choices`.
pub open spec fn sizes_of(choices: Seq<Vec<Value>>) -> Seq<usize> {
    Seq::new(choices.len(), |i: int| choices[i]@.len() as usize)
}

/// The initial values to choose from, list by list.
pub open spec fn choices_view(choices: Seq<Vec<Value>>) -> Seq<Seq<Value>> {
    Seq::new(choices.len(), |i: int| choices[i]@)
}

/// The initial values that an experiment chooses from for `model`.
fn choices_for(model: &Model) -> (choices: Vec<Value>)
    ensures
        choices@ == model@.choices(),
        choices@.len() >= 1,
{
    proof {
        model.unfold();
    }
    let mut choices: Vec<Value> = Vec::new();
    if model.init_variants.len() == 0 {
        choices.push(model.default_init.clone());
        proof {
            assert(choices@ =~= model@.choices());
        }
    } else {
        let mut i: usize = 0;
        while i < model.init_variants.len()
            invariant
                i <= model.init_variants@.len(),
                choices@.len() == i,
                forall|k: int| 0 <= k < i ==> choices@[k] == model.init_variants@[k].1,
            decreases model.init_variants@.len() - i,
        {
            choices.push(model.init_variants[i].1.clone());
            i += 1;
        }
        proof {
            assert(choices@ =~= model@.choices());
        }
    }
    choices
}

/// Walks the tree of `model`, whose full name is `path`, level by level:
/// the full name of every model, and the initial values to choose from
/// for it, in the order of the walk.
pub fn walk_tree(model: &Model, path: &str) -> (found: (Vec<String>, Vec<Vec<Value>>))
    requires
        model.wf(),
    ensures
        names_view(found.0@) == paths_of(breadth_first(model@, path@)),
        choices_view(found.1@) == choices_of(breadth_first(model@, path@)),
        found.0@.len() == found.1@.len(),
        forall|i: int| 0 <= i < found.1@.len() ==> (#[trigger] found.1@[i])@.len() >= 1,
{
    let mut paths: Vec<String> = Vec::new();
    let mut choices: Vec<Vec<Value>> = Vec::new();
    let mut level: Vec<(&Model, String)> = Vec::new();
    level.push((model, path.to_owned()));
    let ghost all = breadth_first(model@, path@);
    let ghost mut depth: nat = height(model@);
    let ghost mut visited: Seq<Stop> = Seq::empty();
    proof {
        assert(level_view(level@) =~= seq![Stop { model: model@, path: path@ }]);
        assert(visited + walk(level_view(level@), depth) =~= all);
        assert(names_view(paths@) =~= paths_of(visited));
        assert(choices_view(choices@) =~= choices_of(visited));
    }
    while level.len() > 0
        invariant
            all == breadth_first(model@, path@),
            visited + walk(level_view(level@), depth) == all,
            fits_depth(level_view(level@), depth),
            forall|i: int| 0 <= i < level@.len() ==> (#[trigger] level@[i]).0.wf(),
            names_view(paths@) == paths_of(visited),
            choices_view(choices@) == choices_of(visited),
            paths@.len() == choices@.len(),
            forall|i: int| 0 <= i < choices@.len() ==> (#[trigger] choices@[i])@.len() >= 1,
        decreases depth,
    {
        let ghost here = level_view(level@);
        let ghost visited_before = visited;
        let mut next: Vec<(&Model, String)> = Vec::new();
        let mut i: usize = 0;
        proof {
            assert(height(here[0].model) >= 1);
            assert(here.take(0) =~= Seq::empty());
            assert(level_view(next@) =~= next_level(here.take(0)));
            assert(visited =~= visited_before + here.take(0));
            assert forall|k: int| 0 <= k < here.len() implies (#[trigger] here[k]).model.children.len()
                == here[k].model.child_names.len() by {
                level@[k].0.unfold();
            }
        }
        while i < level.len()
            invariant
                i <= level@.len(),
                here == level_view(level@),
                forall|k: int| 0 <= k < level@.len() ==> (#[trigger] level@[k]).0.wf(),
                level_view(next@) == next_level(here.take(i as int)),
                forall|k: int| 0 <= k < next@.len() ==> (#[trigger] next@[k]).0.wf(),
                visited == visited_before + here.take(i as int),
                names_view(paths@) == paths_of(visited),
                choices_view(choices@) == choices_of(visited),
                paths@.len() == choices@.len(),
                forall|k: int| 0 <= k < choices@.len() ==> (#[trigger] choices@[k])@.len() >= 1,
            decreases level@.len() - i,
        {
            let stop_model: &Model = level[i].0;
            let ghost stop = here[i as int];
            let ghost paths_before = names_view(paths@);
            let ghost choices_before = choices_view(choices@);
            paths.push(level[i].1.clone());
            choices.push(choices_for(stop_model));
            proof {
                visited = visited.push(stop);
                assert(here.take(i + 1) =~= here.take(i as int).push(stop));
                assert(visited =~= visited_before + here.take(i + 1));
                assert(names_view(paths@) =~= paths_before.push(stop.path));
                assert(names_view(paths@) =~= paths_of(visited));
                assert(choices_view(choices@) =~= choices_before.push(stop.model.choices()));
                assert(choices_view(choices@) =~= choices_of(visited));
                stop_model.unfold();
                assert(here.take(i + 1).drop_last() =~= here.take(i as int));
                assert(here.take(i + 1).last() == stop);
                assert(stops_below(stop, 0) =~= Seq::empty());
                assert(level_view(next@) =~= next_level(here.take(i as int)) + stops_below(
                    stop,
                    0,
                ));
            }
            let mut j: usize = 0;
            while j < stop_model.submodels.len()
                invariant
                    j <= stop_model.submodels@.len(),
                    i < level@.len(),
                    stop_model == level@[i as int].0,
                    stop_model.wf(),
                    stop == (Stop { model: stop_model@, path: level@[i as int].1@ }),
                    here == level_view(level@),
                    level_view(next@) == next_level(here.take(i as int)) + stops_below(
                        stop,
                        j as int,
                    ),
                    forall|k: int| 0 <= k < next@.len() ==> (#[trigger] next@[k]).0.wf(),
                decreases stop_model.submodels@.len() - j,
            {
                let child = &stop_model.submodels[j];
                let ghost next_before = level_view(next@);
                proof {
                    stop_model.unfold();
                    assert(stop_model.child_names()[j as int] == child.name@);
                }
                let child_path = level[i].1.clone().concat("/").concat(child.name.as_str());
                proof {
                    reveal_strlit("/");
                    assert("/"@ =~= seq!['/']);
                    assert(child_path@ =~= Shape::child_full_name(stop.path, child.name@));
                }
                next.push((&child.model, child_path));
                proof {
                    let added = Stop {
                        model: child.model@,
                        path: Shape::child_full_name(stop.path, child.name@),
                    };
                    assert(level_view(next@) =~= next_before.push(added));
                    assert(stops_below(stop, j + 1) =~= stops_below(stop, j as int).push(added));
                    assert(level_view(next@) =~= next_level(here.take(i as int)) + stops_below(
                        stop,
                        j + 1,
                    ));
                }
                j += 1;
            }
            proof {
                stop_model.unfold();
                assert(level_view(next@) =~= next_level(here.take(i + 1)));
            }
            i += 1;
        }
        proof {
            assert(here.take(here.len() as int) =~= here);
            next_level_is_less_deep(here, (depth - 1) as nat);
            assert(visited + walk(level_view(next@), (depth - 1) as nat) =~= all);
            depth = (depth - 1) as nat;
        }
        level = next;
    }
    proof {
        assert(level_view(level@) =~= Seq::empty());
        walk_of_nothing(depth);
        assert(visited =~= all);
    }
    (paths, choices)
}

/// One initial value for each model of a tree: the full name of each
/// model, and the value chosen for it.
pub type InitValues = Vec<(String, Value)>;

/// Named values, as contracts speak of them.
pub open spec fn init_values_view(values: Seq<(String, Value)>) -> Seq<(Seq<char>, Value)> {
    Seq::new(values.len(), |i: int| (values[i].0@, values[i].1))
}

/// The sizes of the wheels of an odometer over the models of a walk.
pub open spec fn wheel_sizes(stops: Seq<Stop>) -> Seq<usize> {
    Seq::new(stops.len(), |i: int| stops[i].model.choices().len() as usize)
}

/// What the digits `digits` choose: for the model at each place, the
/// value at the place of its digit among the values to choose from.
pub open spec fn selection(paths: Seq<String>, choices: Seq<Vec<Value>>, digits: Seq<usize>) -> Seq<
    (Seq<char>, Value),
> {
    Seq::new(paths.len(), |i: int| (paths[i]@, choices[i]@[digits[i] as int]))
}

/// The ways to choose an initial value for every model of a tree, one
/// after the other.
pub struct InitVariants {
    /// The full names of the models, in the order of the walk through the
    /// tree.
    pub paths: Vec<String>,
    /// The values to choose from, for each model.
    pub choices: Vec<Vec<Value>>,
    /// The place of the value that is chosen next, for each model.
    pub digits: Vec<usize>,
    /// The number of the way that is handed out next.
    pub index: u64,
    /// The number of ways.
    pub total: u64,
}

impl InitVariants {
    /// The number of values to choose from, for each model.
    pub open spec fn sizes(&self) -> Seq<usize> {
        sizes_of(self.choices@)
    }

    /// Whether the enumeration is in order: there is a value to choose
    /// from for every model, the number of ways is the product of the
    /// numbers of values, and, unless every way has been handed out, the
    /// digits are a way to choose and show the number of that way.
    pub open spec fn wf(&self) -> bool {
        &&& self.paths@.len() == self.choices@.len()
        &&& self.digits@.len() == self.choices@.len()
        &&& forall|i: int| 0 <= i < self.choices@.len()
            ==> (#[trigger] self.choices@[i])@.len() >= 1
        &&& self.total == ways(self.sizes())
        &&& self.index <= self.total
        &&& self.index < self.total ==> chosen(self.sizes(), self.digits@) && shown(
            self.sizes(),
            self.digits@,
        ) == self.index
    }

    /// The number of ways that have not been handed out.
    pub open spec fn remaining(&self) -> nat {
        (self.total - self.index) as nat
    }

    /// The ways to choose initial values for the tree of `model`, whose
    /// root has the full name `root`: none has been handed out.
    ///
    /// The error is `ErrorCartesian`, exactly if there are more ways than
    /// a `u64` counts.
    pub fn new(model: &Model) -> (made: Result<InitVariants, ExdsdevsError>)
        requires
            model.wf(),
        ensures
            match made {
                Ok(variants) => {
                    &&& variants.wf()
                    &&& variants.index == 0
                    &&& variants.total == ways(wheel_sizes(breadth_first(model@, "root"@)))
                    &&& names_view(variants.paths@) == paths_of(breadth_first(model@, "root"@))
                    &&& choices_view(variants.choices@) == choices_of(
                        breadth_first(model@, "root"@),
                    )
                },
                Err(error) => error is ErrorCartesian && ways(
                    wheel_sizes(breadth_first(model@, "root"@)),
                ) > u64::MAX,
            },
    {
        let (paths, choices) = walk_tree(model, "root");
        let mut sizes: Vec<usize> = Vec::new();
        let mut digits: Vec<usize> = Vec::new();
        let mut i: usize = 0;
        while i < choices.len()
            invariant
                i <= choices@.len(),
                sizes@.len() == i,
                digits@.len() == i,
                forall|k: int| 0 <= k < i ==> sizes@[k] == (#[trigger] choices@[k])@.len(),
                forall|k: int| 0 <= k < i ==> #[trigger] digits@[k] == 0,
            decreases choices@.len() - i,
        {
            sizes.push(choices[i].len());
            digits.push(0);
            i += 1;
        }
        proof {
            let stops = breadth_first(model@, "root"@);
            assert(sizes@ =~= sizes_of(choices@));
            assert(choices_view(choices@).len() == stops.len());
            assert(sizes@ =~= wheel_sizes(stops)) by {
                assert forall|k: int| 0 <= k < sizes@.len() implies sizes@[k] == wheel_sizes(
                    stops,
                )[k] by {
                    assert(choices_view(choices@)[k] == choices_of(stops)[k]);
                }
            }
            zeros_show_zero(sizes@, digits@);
            assert forall|k: int| 0 <= k < sizes@.len() implies #[trigger] sizes@[k] > 0 by {
                assert(choices@[k]@.len() >= 1);
            }
            positive_sizes_leave_a_way(sizes@);
        }
        match count_ways(&sizes) {
            Some(total) => Ok(InitVariants { paths, choices, digits, index: 0, total }),
            None => Err(
                ExdsdevsError::ErrorCartesian(
                    "there are more ways to choose the initial values than can be counted".to_owned(),
                ),
            ),
        }
    }

    /// The initial values that the digits choose.
    fn chosen_values(&self) -> (values: InitValues)
        requires
            self.wf(),
            self.index < self.total,
        ensures
            init_values_view(values@) == selection(self.paths@, self.choices@, self.digits@),
    {
        let mut values: InitValues = Vec::new();
        let mut i: usize = 0;
        while i < self.paths.len()
            invariant
                i <= self.paths@.len(),
                self.wf(),
                self.index < self.total,
                values@.len() == i,
                forall|k: int|
                    0 <= k < i ==> (#[trigger] values@[k]).0@ == self.paths@[k]@ && values@[k].1
                        == self.choices@[k]@[self.digits@[k] as int],
            decreases self.paths@.len() - i,
        {
            proof {
                assert(self.digits@[i as int] < self.sizes()[i as int]);
            }
            values.push((self.paths[i].clone(), self.choices[i][self.digits[i]].clone()));
            i += 1;
        }
        proof {
            assert(init_values_view(values@) =~= selection(
                self.paths@,
                self.choices@,
                self.digits@,
            ));
        }
        values
    }

    /// Moves the odometer on by one: the last wheel that is not at its
    /// last digit shows one digit more, and the wheels behind it are back
    /// at zero.
    fn turn(&mut self)
        requires
            old(self).paths@.len() == old(self).choices@.len(),
            old(self).digits@.len() == old(self).choices@.len(),
            chosen(old(self).sizes(), old(self).digits@),
            shown(old(self).sizes(), old(self).digits@) + 1 < ways(old(self).sizes()),
        ensures
            final(self).paths == old(self).paths,
            final(self).choices == old(self).choices,
            final(self).index == old(self).index,
            final(self).total == old(self).total,
            chosen(final(self).sizes(), final(self).digits@),
            shown(final(self).sizes(), final(self).digits@) == shown(
                old(self).sizes(),
                old(self).digits@,
            ) + 1,
    {
        let ghost sizes = self.sizes();
        let ghost before = self.digits@;
        proof {
            if forall|i: int| 0 <= i < sizes.len() ==> #[trigger] before[i] + 1 == sizes[i] {
                all_last_digits_show_the_last_number(sizes, before);
            }
        }
        let mut at: usize = self.digits.len();
        let mut moved = false;
        while !moved
            invariant
                at <= before.len(),
                sizes == self.sizes(),
                self.paths == old(self).paths,
                self.choices == old(self).choices,
                self.index == old(self).index,
                self.total == old(self).total,
                chosen(sizes, before),
                self.digits@.len() == before.len(),
                before.len() == sizes.len(),
                !moved ==> exists|k: int| 0 <= k < at && #[trigger] before[k] + 1 != sizes[k],
                !moved ==> forall|i: int| 0 <= i < at ==> self.digits@[i] == before[i],
                !moved ==> forall|i: int|
                    at <= i < sizes.len() ==> before[i] + 1 == sizes[i] && self.digits@[i] == 0,
                moved ==> stepped(sizes, before, self.digits@, at as int),
                moved ==> self.digits@[at as int] < sizes[at as int],
            decreases at,
        {
            at -= 1;
            proof {
                assert(before[at as int] < sizes[at as int]);
            }
            if self.digits[at] + 1 < self.choices[at].len() {
                let digit = self.digits[at];
                self.digits.set(at, digit + 1);
                moved = true;
            } else {
                self.digits.set(at, 0);
                proof {
                    let k = choose|k: int| 0 <= k < at + 1 && #[trigger] before[k] + 1 != sizes[k];
                    assert(k < at);
                }
            }
        }
        proof {
            assert(chosen(sizes, self.digits@)) by {
                assert forall|i: int| 0 <= i < sizes.len() implies #[trigger] self.digits@[i]
                    < sizes[i] by {
                    assert(before[i] < sizes[i]);
                    if i < at {
                        assert(self.digits@[i] == before[i]);
                    } else if i > at {
                        assert(before[i] + 1 == sizes[i] && self.digits@[i] == 0);
                    }
                }
            }
            a_step_counts_one(sizes, before, self.digits@, at as int);
        }
    }

    /// The next way to choose: its number, and the initial value chosen
    /// for each model. The numbers begin at zero and rise by one; the last
    /// wheel of the odometer, which is the last model of the walk through
    /// the tree, turns fastest. There is no next way exactly if every way
    /// has been handed out, and then nothing changes.
    pub fn next(&mut self) -> (way: Option<(u64, InitValues)>)
        requires
            old(self).wf(),
        ensures
            final(self).wf(),
            final(self).paths == old(self).paths,
            final(self).choices == old(self).choices,
            final(self).total == old(self).total,
            match way {
                Some((number, values)) => {
                    &&& old(self).remaining() > 0
                    &&& number == old(self).index
                    &&& final(self).index == old(self).index + 1
                    &&& chosen(old(self).sizes(), old(self).digits@)
                    &&& shown(old(self).sizes(), old(self).digits@) == number
                    &&& init_values_view(values@) == selection(
                        old(self).paths@,
                        old(self).choices@,
                        old(self).digits@,
                    )
                },
                None => old(self).remaining() == 0 && *final(self) == *old(self),
            },
    {
        if self.index >= self.total {
            return None;
        }
        let number = self.index;
        let values = self.chosen_values();
        if self.index + 1 < self.total {
            self.turn();
        }
        self.index = self.index + 1;
        Some((number, values))
    }
}

} // verus!
