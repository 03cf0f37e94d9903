//! The simulator of one model, which simulates the children of the model
//! through simulators of its own.
//!
//! A simulator keeps three times: the time of the last transition of its
//! model, the time of the next event of the model itself, and the time of
//! the next event anywhere in its tree. At every event time the tree is
//! walked twice: first the output of every model that is due is gathered,
//! then every model that is due or has input makes its transition.

use crate::containers::{
    bag_view, mail_view, Bag, Mail, MailItem, MailItemView, ModelSimResults, MsgView, SimResult,
    SimResults,
};
use crate::couplings::{without_repeats, CouplingView};
use crate::errors::ExdsdevsError;
use crate::model::{Model, ModelView, Submodel};
use crate::names::{holds_name, names_rise, names_view};
use crate::observer::{observer_names, NamedObserver};
use crate::router::{
    inbound, inbound_bag, no_edge_to, nothing_arrives_where_no_edge_leads,
    nothing_leaves_where_no_edge_leads, one_edge_relabels, outbound, relabelled, route_bag,
    route_mail,
};
use crate::sim_model::SimModel;
use crate::time::{earlier_is_the_minimum, Time};
use rand::rngs::StdRng;
use serde_json::Value;
use vstd::prelude::*;

verus! {

/// The simulator of one model.
pub struct Simulator {
    /// The name by which the parent knows the model; for the model at the
    /// top of a tree, its full name.
    pub name: String,
    /// The model.
    pub sim_model: SimModel,
    /// The simulators of the children, in the order of their names.
    pub sub_simulators: Vec<Simulator>,
    /// The names of the children that are due at the event time under way.
    pub imminent: Vec<String>,
    /// The output of the children at the event time under way.
    pub mail: Mail,
    /// The time of the last transition.
    pub t_last: Time,
    /// The time of the next event of the model itself.
    pub t_next_self: Time,
    /// The time of the next event of the model or of a model below it.
    pub t_next: Time,
    /// The observers of the model, in the order in which they are told.
    pub observers: Vec<NamedObserver>,
    /// The number of the way in which the initial values of the run are
    /// chosen.
    pub variant: u64,
    /// The number of the run among the runs with these initial values.
    pub iteration: u64,
    /// The initial value that the behaviour is handed.
    pub init_value: Value,
}

/// What never changes while a simulation runs: the names and the
/// couplings of a tree of simulators.
pub struct Shape {
    pub name: Seq<char>,
    pub full_name: Seq<char>,
    pub coupled: bool,
    pub eic: Seq<CouplingView>,
    pub ic: Seq<CouplingView>,
    pub eoc: Seq<CouplingView>,
    pub observer_names: Seq<Seq<char>>,
    pub variant: u64,
    pub iteration: u64,
    pub init_value: Value,
    pub children: Seq<Shape>,
}

impl Shape {
    /// The full name of the child `child` of the model with the full name
    /// `parent`: the two, with `/` between them.
    pub open spec fn child_full_name(parent: Seq<char>, child: Seq<char>) -> Seq<char> {
        parent + seq!['/'] + child
    }

    /// The shapes of the simulators of the first `n` children of `model`,
    /// whose own full name is `full_name`.
    pub open spec fn of_children(model: ModelView, full_name: Seq<char>, iteration: u64, n: int) -> Seq<
        Shape,
    >
        decreases model, n,
    {
        if n <= 0 || n > model.children.len() || n > model.child_names.len() {
            Seq::empty()
        } else {
            Shape::of_children(model, full_name, iteration, n - 1).push(
                Shape::of_model(
                    model.children[n - 1],
                    model.child_names[n - 1],
                    Shape::child_full_name(full_name, model.child_names[n - 1]),
                    iteration,
                ),
            )
        }
    }

    /// The shape of the simulator that is built from the description
    /// `model` under the names `name` and `full_name`, for the run
    /// `iteration`: a model with children keeps its couplings, without
    /// what comes a second time; each child is built in the same way,
    /// under its own name behind the full name of its parent.
    pub open spec fn of_model(model: ModelView, name: Seq<char>, full_name: Seq<char>, iteration: u64) -> Shape
        decreases model, model.children.len() + 1,
    {
        let coupled = model.children.len() > 0;
        Shape {
            name,
            full_name,
            coupled,
            eic: if coupled {
                without_repeats(model.input_couplings)
            } else {
                Seq::empty()
            },
            ic: if coupled {
                without_repeats(model.internal_couplings)
            } else {
                Seq::empty()
            },
            eoc: if coupled {
                without_repeats(model.output_couplings)
            } else {
                Seq::empty()
            },
            observer_names: model.observer_names,
            variant: 0,
            iteration,
            init_value: model.default_init,
            children: Shape::of_children(model, full_name, iteration, model.children.len() as int),
        }
    }

    /// The value that `values` hold for the full name `path`: the first
    /// under that name, or `otherwise` if there is none.
    pub open spec fn value_for(values: Seq<(Seq<char>, Value)>, path: Seq<char>, otherwise: Value) -> Value
        decreases values.len(),
    {
        if values.len() == 0 {
            otherwise
        } else if values[0].0 == path {
            values[0].1
        } else {
            Shape::value_for(values.drop_first(), path, otherwise)
        }
    }

    /// The first `n` of `children`, each with the initial values that
    /// `values` hold for its tree.
    pub open spec fn all_with_init_values(
        children: Seq<Shape>,
        variant: u64,
        values: Seq<(Seq<char>, Value)>,
        n: int,
    ) -> Seq<Shape>
        decreases children, n,
    {
        if n <= 0 || n > children.len() {
            Seq::empty()
        } else {
            Shape::all_with_init_values(children, variant, values, n - 1).push(
                children[n - 1].with_init_values(variant, values),
            )
        }
    }

    /// The tree with the initial values of the way `variant`, which
    /// `values` hold: every model for whose full name there is a value
    /// gets the first such value, and every other model keeps its own.
    pub open spec fn with_init_values(self, variant: u64, values: Seq<(Seq<char>, Value)>) -> Shape
        decreases self,
    {
        Shape {
            variant,
            init_value: Shape::value_for(values, self.full_name, self.init_value),
            children: Shape::all_with_init_values(
                self.children,
                variant,
                values,
                self.children.len() as int,
            ),
            ..self
        }
    }

    /// `all_with_init_values` treats the children one for one.
    pub proof fn all_with_init_values_unfold(
        children: Seq<Shape>,
        variant: u64,
        values: Seq<(Seq<char>, Value)>,
        n: int,
    )
        requires
            0 <= n <= children.len(),
        ensures
            Shape::all_with_init_values(children, variant, values, n).len() == n,
            forall|i: int|
                0 <= i < n ==> #[trigger] Shape::all_with_init_values(
                    children,
                    variant,
                    values,
                    n,
                )[i] == children[i].with_init_values(variant, values),
        decreases n,
    {
        reveal_with_fuel(Shape::all_with_init_values, 2);
        if n > 0 {
            Shape::all_with_init_values_unfold(children, variant, values, n - 1);
        }
    }

    /// Whether `picks` can be the names of the observers of the model
    /// with the full name `full_name` that hand back a result when the
    /// simulation ends: a model of the tree has that full name, `picks`
    /// are names of its observers, in their order, and there is at least
    /// one.
    pub open spec fn answers(self, full_name: Seq<char>, picks: Seq<Seq<char>>) -> bool
        decreases self,
    {
        (self.full_name == full_name && picks.len() > 0 && picked_in_order(
            self.observer_names,
            picks,
        )) || exists|i: int|
            0 <= i < self.children.len() && (#[trigger] self.children[i]).answers(full_name, picks)
    }

    /// The models of the first `n` of `children`, tree behind tree: see
    /// `models`.
    pub open spec fn models_of(children: Seq<Shape>, n: int) -> Seq<Watched>
        decreases children, n,
    {
        if n <= 0 || n > children.len() {
            Seq::empty()
        } else {
            Shape::models_of(children, n - 1) + children[n - 1].models()
        }
    }

    /// The models of the tree, each once, with its full name and the names
    /// of its observers: the models of the trees of the children, the
    /// children in their order, and behind them the model at the top.
    pub open spec fn models(self) -> Seq<Watched>
        decreases self,
    {
        Shape::models_of(self.children, self.children.len() as int).push(
            Watched { full_name: self.full_name, observers: self.observer_names },
        )
    }

    /// `of_children` gives the shapes of the children, one for one.
    pub proof fn of_children_unfolds(model: ModelView, full_name: Seq<char>, iteration: u64, n: int)
        requires
            0 <= n <= model.children.len(),
            model.children.len() == model.child_names.len(),
        ensures
            Shape::of_children(model, full_name, iteration, n).len() == n,
            forall|i: int|
                0 <= i < n ==> #[trigger] Shape::of_children(model, full_name, iteration, n)[i]
                    == Shape::of_model(
                    model.children[i],
                    model.child_names[i],
                    Shape::child_full_name(full_name, model.child_names[i]),
                    iteration,
                ),
        decreases n,
    {
        reveal_with_fuel(Shape::of_children, 2);
        if n > 0 {
            Shape::of_children_unfolds(model, full_name, iteration, n - 1);
        }
    }
}

/// The times of a tree of simulators.
pub struct Clock {
    pub t_last: Time,
    pub t_next_self: Time,
    pub t_next: Time,
    pub children: Seq<Clock>,
}

/// Whether `picks` are among `names`, in the order of `names`: every pick
/// stands for a name of its own, and the names that are picked stand in
/// the order of the picks.
pub open spec fn picked_in_order(names: Seq<Seq<char>>, picks: Seq<Seq<char>>) -> bool
    decreases names.len(),
{
    if picks.len() == 0 {
        true
    } else if names.len() == 0 {
        false
    } else if names.last() == picks.last() {
        picked_in_order(names.drop_last(), picks.drop_last()) || picked_in_order(
            names.drop_last(),
            picks,
        )
    } else {
        picked_in_order(names.drop_last(), picks)
    }
}

/// The names of the observers whose results `results` hold, in their
/// order.
pub open spec fn answer_names(results: Seq<(String, SimResult)>) -> Seq<Seq<char>> {
    Seq::new(results.len(), |i: int| results[i].0@)
}

/// A model with observers, as the end of a simulation speaks of it: its
/// full name and the names of observers of the model, in their order.
pub struct Watched {
    pub full_name: Seq<char>,
    pub observers: Seq<Seq<char>>,
}

/// Whether `entries` can be what is handed back for the models `models`
/// when a simulation ends: every entry stands for a model of its own and
/// has its full name, it holds the names of some of the observers of that
/// model, in their order and at least one, and the models that have an
/// entry stand in the order of the entries.
pub open spec fn answered_in_order(models: Seq<Watched>, entries: Seq<Watched>) -> bool
    decreases models.len(),
{
    if entries.len() == 0 {
        true
    } else if models.len() == 0 {
        false
    } else {
        ||| answered_in_order(models.drop_last(), entries)
        ||| {
            &&& entries.last().full_name == models.last().full_name
            &&& entries.last().observers.len() > 0
            &&& picked_in_order(models.last().observers, entries.last().observers)
            &&& answered_in_order(models.drop_last(), entries.drop_last())
        }
    }
}

/// What is handed back for some models can be handed back for those
/// models with one more behind them, which then has no entry; and with the
/// names `picks` of observers of that model, with an entry for it behind
/// the others.
pub proof fn one_more_model(
    models: Seq<Watched>,
    entries: Seq<Watched>,
    model: Watched,
    picks: Seq<Seq<char>>,
)
    requires
        answered_in_order(models, entries),
    ensures
        answered_in_order(models.push(model), entries),
        picks.len() > 0 && picked_in_order(model.observers, picks) ==> answered_in_order(
            models.push(model),
            entries.push(Watched { full_name: model.full_name, observers: picks }),
        ),
{
    assert(models.push(model).drop_last() =~= models);
    let entry = Watched { full_name: model.full_name, observers: picks };
    assert(entries.push(entry).drop_last() =~= entries);
}

/// What is handed back for some models, and behind it what is handed back
/// for more models, can be handed back for all of them.
pub proof fn answered_one_behind_the_other(
    models: Seq<Watched>,
    entries: Seq<Watched>,
    more_models: Seq<Watched>,
    more_entries: Seq<Watched>,
)
    requires
        answered_in_order(models, entries),
        answered_in_order(more_models, more_entries),
    ensures
        answered_in_order(models + more_models, entries + more_entries),
    decreases more_models.len(),
{
    if more_models.len() == 0 {
        assert(models + more_models =~= models);
        assert(entries + more_entries =~= entries);
    } else {
        let front = more_models.drop_last();
        let all = models + more_models;
        let both = entries + more_entries;
        assert(all.drop_last() =~= models + front);
        assert(all.last() == more_models.last());
        if more_entries.len() == 0 {
            assert(both =~= entries);
            answered_one_behind_the_other(models, entries, front, more_entries);
            assert(entries + more_entries =~= entries);
        } else {
            assert(both.last() == more_entries.last());
            assert(both.drop_last() =~= entries + more_entries.drop_last());
            if answered_in_order(front, more_entries) {
                answered_one_behind_the_other(models, entries, front, more_entries);
            } else {
                answered_one_behind_the_other(models, entries, front, more_entries.drop_last());
            }
        }
    }
}

/// The results of a simulation as `answered_in_order` speaks of them: for
/// every entry the full name of its model and the names of the observers
/// whose results it holds.
pub open spec fn entries_view(results: Seq<(String, ModelSimResults)>) -> Seq<Watched> {
    Seq::new(
        results.len(),
        |i: int| Watched { full_name: results[i].0@, observers: answer_names(results[i].1@) },
    )
}

/// Whether `entry` can be the results of the observers of a model of the
/// tree `shape`: see `Shape::answers`.
pub open spec fn entry_of(shape: Shape, entry: (String, ModelSimResults)) -> bool {
    shape.answers(entry.0@, answer_names(entry.1@))
}

/// What is kept of the answer of an observer when a simulation ends: its
/// result, under the name of the observer, behind the results that are
/// kept already; nothing, where the observer hands back none.
pub fn keep_answer(results: &mut ModelSimResults, observer: &String, answer: Option<SimResult>)
    ensures
        final(results)@ == match answer {
            Some(result) => old(results)@.push((*observer, result)),
            None => old(results)@,
        },
{
    match answer {
        Some(result) => {
            results.push((observer.clone(), result));
        },
        None => {},
    }
}

impl Clock {
    /// The lowest `t_next` among the first `n` of `children`; `Inf` if
    /// there are none.
    pub open spec fn lowest(children: Seq<Clock>, n: int) -> Time
        decreases n,
    {
        if n <= 0 || n > children.len() {
            Time::Inf
        } else {
            Clock::lowest(children, n - 1).earlier(children[n - 1].t_next)
        }
    }

    /// Whether the times of the tree agree: at every simulator, the next
    /// event of the tree is the earlier of the next event of the model
    /// itself and the next events of the trees of the children.
    pub open spec fn settled(self) -> bool
        decreases self,
    {
        &&& self.t_next == self.t_next_self.earlier(
            Clock::lowest(self.children, self.children.len() as int),
        )
        &&& forall|i: int| 0 <= i < self.children.len() ==> (#[trigger] self.children[i]).settled()
    }

    /// Whether no simulator of the tree has been initialized: each has its
    /// last transition at zero and no event to come.
    pub open spec fn fresh(self) -> bool
        decreases self,
    {
        &&& self.t_last == Time::Value(0)
        &&& self.t_next_self == Time::Inf
        &&& self.t_next == Time::Inf
        &&& forall|i: int| 0 <= i < self.children.len() ==> (#[trigger] self.children[i]).fresh()
    }

    /// Whether no simulator of the tree made its last transition after
    /// `time`.
    pub open spec fn all_behind(self, time: Time) -> bool
        decreases self,
    {
        &&& self.t_last.at_most(time)
        &&& forall|i: int|
            0 <= i < self.children.len() ==> (#[trigger] self.children[i]).all_behind(time)
    }

    /// Whether no model of the tree has its own next event before `time`.
    pub open spec fn none_overdue(self, time: Time) -> bool
        decreases self,
    {
        &&& time.at_most(self.t_next_self)
        &&& forall|i: int|
            0 <= i < self.children.len() ==> (#[trigger] self.children[i]).none_overdue(time)
    }

    /// Whether no model of the tree asks the simulation to stop: none has
    /// the request to stop as the time of its own next event.
    pub open spec fn unstopped(self) -> bool
        decreases self,
    {
        &&& !(self.t_next_self is StopSim)
        &&& forall|i: int| 0 <= i < self.children.len() ==> (#[trigger] self.children[i]).unstopped()
    }

    /// Where none of some trees has the request to stop as the time of its
    /// next event, the lowest of those times is not the request to stop.
    pub proof fn lowest_goes_on(children: Seq<Clock>, n: int)
        requires
            0 <= n <= children.len(),
            forall|i: int| 0 <= i < n ==> !((#[trigger] children[i]).t_next is StopSim),
        ensures
            !(Clock::lowest(children, n) is StopSim),
        decreases n,
    {
        if n > 0 {
            Clock::lowest_goes_on(children, n - 1);
        }
    }

    /// In a tree whose times agree, and in which no model asks the
    /// simulation to stop, the time of the next event of the tree is not
    /// the request to stop.
    pub proof fn an_unstopped_tree_goes_on(self)
        requires
            self.settled(),
            self.unstopped(),
        ensures
            !(self.t_next is StopSim),
        decreases self,
    {
        assert forall|i: int| 0 <= i < self.children.len() implies !((
        #[trigger] self.children[i]).t_next is StopSim) by {
            self.children[i].an_unstopped_tree_goes_on();
        }
        Clock::lowest_goes_on(self.children, self.children.len() as int);
    }

    /// Whether the distance from the last transition of every simulator of
    /// the tree to `time` can be held.
    pub open spec fn all_in_reach(self, time: Time) -> bool
        decreases self,
    {
        &&& time.difference_fits(self.t_last)
        &&& forall|i: int|
            0 <= i < self.children.len() ==> (#[trigger] self.children[i]).all_in_reach(time)
    }

    /// The lowest `t_next` of some trees lies above none of them.
    pub proof fn lowest_is_below(children: Seq<Clock>, n: int, i: int)
        requires
            0 <= i < n <= children.len(),
        ensures
            Clock::lowest(children, n).at_most(children[i].t_next),
        decreases n,
    {
        if i < n - 1 {
            Clock::lowest_is_below(children, n - 1, i);
        }
    }

    /// A tree in which nothing is overdue at a time has nothing overdue at
    /// an earlier time.
    pub proof fn not_overdue_before(self, earlier: Time, later: Time)
        requires
            earlier.at_most(later),
            self.none_overdue(later),
        ensures
            self.none_overdue(earlier),
        decreases self,
    {
        assert forall|i: int| 0 <= i < self.children.len() implies (
        #[trigger] self.children[i]).none_overdue(earlier) by {
            self.children[i].not_overdue_before(earlier, later);
        }
    }

    /// In a tree whose times agree, nothing is overdue at the time of the
    /// next event of the tree: that time is the lowest of the times of the
    /// next events of all its models.
    pub proof fn settled_is_not_overdue(self)
        requires
            self.settled(),
        ensures
            self.none_overdue(self.t_next),
        decreases self,
    {
        assert forall|i: int| 0 <= i < self.children.len() implies (
        #[trigger] self.children[i]).none_overdue(self.t_next) by {
            self.children[i].settled_is_not_overdue();
            Clock::lowest_is_below(self.children, self.children.len() as int, i);
            self.children[i].not_overdue_before(self.t_next, self.children[i].t_next);
        }
    }

    /// Whether every simulator of the tree made its last transition at
    /// `time`.
    pub open spec fn all_at(self, time: Time) -> bool
        decreases self,
    {
        &&& self.t_last == time
        &&& forall|i: int|
            0 <= i < self.children.len() ==> (#[trigger] self.children[i]).all_at(time)
    }
}

impl Simulator {
    /// The shapes of the first `n` of `children`.
    pub open spec fn shapes_of(children: Seq<Simulator>, n: int) -> Seq<Shape>
        decreases children, n,
    {
        if n <= 0 || n > children.len() {
            Seq::empty()
        } else {
            Simulator::shapes_of(children, n - 1).push(children[n - 1].shape())
        }
    }

    /// The shape of the tree.
    pub open spec fn shape(&self) -> Shape
        decreases self,
    {
        Shape {
            name: self.name@,
            full_name: self.sim_model.full_name@,
            coupled: self.sim_model.structure is Some,
            eic: self.sim_model.eic(),
            ic: self.sim_model.ic(),
            eoc: self.sim_model.eoc(),
            observer_names: observer_names(self.observers@),
            variant: self.variant,
            iteration: self.iteration,
            init_value: self.init_value,
            children: Simulator::shapes_of(self.sub_simulators@, self.sub_simulators@.len() as int),
        }
    }

    /// The clocks of the first `n` of `children`.
    pub open spec fn clocks_of(children: Seq<Simulator>, n: int) -> Seq<Clock>
        decreases children, n,
    {
        if n <= 0 || n > children.len() {
            Seq::empty()
        } else {
            Simulator::clocks_of(children, n - 1).push(children[n - 1].clock())
        }
    }

    /// The times of the tree.
    pub open spec fn clock(&self) -> Clock
        decreases self,
    {
        Clock {
            t_last: self.t_last,
            t_next_self: self.t_next_self,
            t_next: self.t_next,
            children: Simulator::clocks_of(self.sub_simulators@, self.sub_simulators@.len() as int),
        }
    }

    /// The names of the children, in their order.
    pub open spec fn child_names(&self) -> Seq<Seq<char>> {
        Seq::new(self.sub_simulators@.len(), |i: int| self.sub_simulators@[i].name@)
    }

    /// Whether no simulator of the tree holds mail or the names of children
    /// that are due: no event time is under way.
    pub open spec fn idle(&self) -> bool
        decreases self,
    {
        &&& self.imminent@.len() == 0
        &&& self.mail@.len() == 0
        &&& forall|i: int|
            0 <= i < self.sub_simulators@.len() ==> (#[trigger] self.sub_simulators@[i]).idle()
    }

    /// Whether what the tree holds of an event time under way is known to
    /// the parents: a model without children holds no mail and no names,
    /// and every child that holds any is among the children that its
    /// parent has noted as due.
    pub open spec fn gathered(&self) -> bool
        decreases self,
    {
        &&& self.sub_simulators@.len() == 0 ==> self.imminent@.len() == 0 && self.mail@.len() == 0
        &&& forall|i: int|
            0 <= i < self.sub_simulators@.len() ==> {
                &&& (#[trigger] self.sub_simulators@[i]).gathered()
                &&& names_view(self.imminent@).contains(self.sub_simulators@[i].name@)
                    || self.sub_simulators@[i].idle()
            }
    }

    /// What `gathered` says of a simulator, one level deep.
    pub proof fn unfold_gathered(self)
        ensures
            self.gathered() == ((self.sub_simulators@.len() == 0 ==> self.imminent@.len() == 0
                && self.mail@.len() == 0) && forall|i: int|
                0 <= i < self.sub_simulators@.len() ==> {
                    &&& (#[trigger] self.sub_simulators@[i]).gathered()
                    &&& names_view(self.imminent@).contains(self.sub_simulators@[i].name@)
                        || self.sub_simulators@[i].idle()
                }),
    {
    }

    /// A tree that holds nothing of an event time holds nothing that its
    /// parents do not know of.
    pub proof fn idle_is_gathered(self)
        requires
            self.idle(),
        ensures
            self.gathered(),
        decreases self,
    {
        assert forall|i: int| 0 <= i < self.sub_simulators@.len() implies (
        #[trigger] self.sub_simulators@[i]).gathered() by {
            self.sub_simulators@[i].idle_is_gathered();
        }
    }

    /// Whether the tree is in order: a simulator has couplings exactly if
    /// it has children, the names of its children rise, and the tree of
    /// every child is in order.
    pub open spec fn wf(&self) -> bool
        decreases self,
    {
        &&& self.sim_model.structure is Some == (self.sub_simulators@.len() > 0)
        &&& names_rise(self.child_names())
        &&& forall|i: int|
            0 <= i < self.sub_simulators@.len() ==> (#[trigger] self.sub_simulators@[i]).wf()
    }

    /// `shapes_of` and `clocks_of` give the shapes and the clocks of the
    /// children, one for one.
    pub proof fn views_of_children(children: Seq<Simulator>, n: int)
        requires
            0 <= n <= children.len(),
        ensures
            Simulator::shapes_of(children, n).len() == n,
            forall|i: int|
                0 <= i < n ==> #[trigger] Simulator::shapes_of(children, n)[i]
                    == children[i].shape(),
            Simulator::clocks_of(children, n).len() == n,
            forall|i: int|
                0 <= i < n ==> #[trigger] Simulator::clocks_of(children, n)[i]
                    == children[i].clock(),
        decreases n,
    {
        reveal_with_fuel(Simulator::shapes_of, 2);
        reveal_with_fuel(Simulator::clocks_of, 2);
        if n > 0 {
            Simulator::views_of_children(children, n - 1);
        }
    }

    /// What the shape, the clock and `wf` say of a simulator, one level
    /// deep.
    pub proof fn unfold(self)
        ensures
            self.wf() == (self.sim_model.structure is Some == (self.sub_simulators@.len() > 0)
                && names_rise(self.child_names()) && forall|i: int|
                0 <= i < self.sub_simulators@.len() ==> (#[trigger] self.sub_simulators@[i]).wf()),
            self.shape().name == self.name@,
            self.shape().full_name == self.sim_model.full_name@,
            self.shape().coupled == self.sim_model.structure is Some,
            self.shape().eic == self.sim_model.eic(),
            self.shape().ic == self.sim_model.ic(),
            self.shape().eoc == self.sim_model.eoc(),
            self.shape().observer_names == observer_names(self.observers@),
            self.shape().variant == self.variant,
            self.shape().iteration == self.iteration,
            self.shape().init_value == self.init_value,
            self.shape().children.len() == self.sub_simulators@.len(),
            forall|i: int|
                0 <= i < self.sub_simulators@.len() ==> #[trigger] self.shape().children[i]
                    == self.sub_simulators@[i].shape(),
            self.clock().t_last == self.t_last,
            self.clock().t_next_self == self.t_next_self,
            self.clock().t_next == self.t_next,
            self.clock().children.len() == self.sub_simulators@.len(),
            forall|i: int|
                0 <= i < self.sub_simulators@.len() ==> #[trigger] self.clock().children[i]
                    == self.sub_simulators@[i].clock(),
    {
        Simulator::views_of_children(self.sub_simulators@, self.sub_simulators@.len() as int);
    }
}

/// The full name of the child `child` of the model with the full name
/// `parent`.
fn child_full_name(parent: &String, child: &String) -> (full_name: String)
    ensures
        full_name@ == Shape::child_full_name(parent@, child@),
{
    proof {
        reveal_strlit("/");
        assert("/"@ =~= seq!['/']);
    }
    parent.clone().concat("/").concat(child.as_str())
}

impl Simulator {
    /// Whether the tree holds what the description `model` holds: the
    /// simulator of every model holds the behaviour and the observers of
    /// its description.
    pub open spec fn holds(&self, model: Model) -> bool
        decreases self,
    {
        &&& self.sim_model.dynamic == model.dynamic
        &&& self.observers == model.observers
        &&& self.sub_simulators@.len() == model.submodels@.len()
        &&& forall|i: int|
            0 <= i < self.sub_simulators@.len() ==> (#[trigger] self.sub_simulators@[i]).holds(
                model.submodels@[i].model,
            )
    }

    /// The simulator of the model that `model` describes, for the run
    /// `iteration`, with a simulator for every model below it. It holds
    /// the behaviours and the observers of the description. Nothing is
    /// initialized yet.
    pub fn new(model_full_name: String, model: Model, iteration: u64) -> (simulator: Simulator)
        requires
            model.wf(),
        ensures
            simulator.wf(),
            simulator.idle(),
            simulator.clock().fresh(),
            simulator.shape() == Shape::of_model(
                model@,
                model_full_name@,
                model_full_name@,
                iteration,
            ),
            simulator.holds(model),
    {
        Simulator::build(model_full_name.clone(), model_full_name, model, iteration)
    }

    /// The simulator of the model that `model` describes, which its parent
    /// knows as `name`.
    fn build(name: String, full_name: String, model: Model, iteration: u64) -> (simulator: Simulator)
        requires
            model.wf(),
        ensures
            simulator.wf(),
            simulator.idle(),
            simulator.clock().fresh(),
            simulator.shape() == Shape::of_model(model@, name@, full_name@, iteration),
            simulator.holds(model),
        decreases model,
    {
        proof {
            model.unfold();
            Shape::of_children_unfolds(model@, full_name@, iteration, model.submodels@.len() as int);
        }
        let (sim_model, rest) = SimModel::new(full_name, model);
        let Model {
            dynamic,
            input_ports,
            output_ports,
            submodels,
            input_couplings,
            internal_couplings,
            output_couplings,
            observers,
            default_init,
            init_variants,
        } = rest;
        let mut sub_simulators: Vec<Simulator> = Vec::new();
        for submodel in iter: submodels
            invariant
                iter.seq() == submodels@,
                submodels == model.submodels,
                sim_model.full_name == full_name,
                model.wf(),
                sub_simulators@.len() == iter.index(),
                forall|i: int|
                    0 <= i < sub_simulators@.len() ==> {
                        let sub = #[trigger] sub_simulators@[i];
                        &&& sub.wf()
                        &&& sub.idle()
                        &&& sub.clock().fresh()
                        &&& sub.shape() == Shape::of_model(
                            submodels@[i].model@,
                            submodels@[i].name@,
                            Shape::child_full_name(full_name@, submodels@[i].name@),
                            iteration,
                        )
                        &&& sub.holds(submodels@[i].model)
                    },
        {
            proof {
                model.unfold();
                assert(submodel == model.submodels@[iter.index() as int]);
            }
            let Submodel { name: child_name, model: child } = submodel;
            let child_path = child_full_name(&sim_model.full_name, &child_name);
            sub_simulators.push(Simulator::build(child_name, child_path, child, iteration));
        }
        let simulator = Simulator {
            name,
            sim_model,
            sub_simulators,
            imminent: Vec::new(),
            mail: Vec::new(),
            t_last: Time::Value(0),
            t_next_self: Time::Inf,
            t_next: Time::Inf,
            observers,
            variant: 0,
            iteration,
            init_value: default_init,
        };
        proof {
            simulator.unfold();
            model.unfold();
            let shape = simulator.shape();
            let wanted = Shape::of_model(model@, name@, full_name@, iteration);
            assert(simulator.child_names() =~= model.child_names());
            assert(shape.children =~= wanted.children);
            assert(shape.eic =~= wanted.eic);
            assert(shape.ic =~= wanted.ic);
            assert(shape.eoc =~= wanted.eoc);
            assert(simulator.clock().children.len() == simulator.sub_simulators@.len());
        }
        simulator
    }
}

/// What the observers of a model are told.
enum Notice<'a> {
    Start { variant: u64, iteration: u64, init_time: Time, init_value: &'a Value, t_next: Time },
    Outputs { sim_time: Time, bag: &'a Bag, t_next: Time },
    BeforeInternal { sim_time: Time },
    AfterInternal { sim_time: Time, t_next: Time },
    BeforeExternal { sim_time: Time, x_bag: &'a Bag, elapsed: Time },
    AfterExternal { sim_time: Time, t_next: Time },
    BeforeExternalMail { sim_time: Time, mail: &'a Mail, elapsed: Time },
    AfterExternalMail { sim_time: Time, t_next: Time },
    BeforeConfluent { sim_time: Time, x_bag: &'a Bag },
    AfterConfluent { sim_time: Time, t_next: Time },
    AfterSubmodels { sim_time: Time, t_next: Time },
}

/// Tells every observer of `model`, in their order, what `notice` says.
fn tell(observers: &mut Vec<NamedObserver>, model: &SimModel, notice: &Notice)
    ensures
        observer_names(final(observers)@) == observer_names(old(observers)@),
{
    let ghost names = observer_names(observers@);
    let mut i: usize = 0;
    while i < observers.len()
        invariant
            observer_names(observers@) == names,
        decreases observers@.len() - i,
    {
        let ghost before = observers@;
        let watcher = &mut observers[i].observer;
        match notice {
            Notice::Start { variant, iteration, init_time, init_value, t_next } => {
                watcher.init(model, *variant, *iteration);
                watcher.on_init(model, *init_time, init_value, *t_next);
            },
            Notice::Outputs { sim_time, bag, t_next } => {
                watcher.on_outputs(model, *sim_time, bag, *t_next);
            },
            Notice::BeforeInternal { sim_time } => {
                watcher.before_internal_transition(model, *sim_time);
            },
            Notice::AfterInternal { sim_time, t_next } => {
                watcher.after_internal_transition(model, *sim_time, *t_next);
            },
            Notice::BeforeExternal { sim_time, x_bag, elapsed } => {
                watcher.before_external_transition(model, *sim_time, x_bag, *elapsed);
            },
            Notice::AfterExternal { sim_time, t_next } => {
                watcher.after_external_transition(model, *sim_time, *t_next);
            },
            Notice::BeforeExternalMail { sim_time, mail, elapsed } => {
                watcher.before_external_mail_transition(model, *sim_time, mail, *elapsed);
            },
            Notice::AfterExternalMail { sim_time, t_next } => {
                watcher.after_external_mail_transition(model, *sim_time, *t_next);
            },
            Notice::BeforeConfluent { sim_time, x_bag } => {
                watcher.before_confluent_transition(model, *sim_time, x_bag);
            },
            Notice::AfterConfluent { sim_time, t_next } => {
                watcher.after_confluent_transition(model, *sim_time, *t_next);
            },
            Notice::AfterSubmodels { sim_time, t_next } => {
                watcher.after_submodels_transition(model, *sim_time, *t_next);
            },
        }
        proof {
            assert(observers@.len() == before.len());
            assert(observers@[i as int].name == before[i as int].name);
            assert(observer_names(observers@) =~= names);
        }
        i += 1;
    }
}

/// The transition that a model makes at an event time.
#[derive(Clone, Copy, Debug, PartialEq, Eq, Structural)]
pub enum Transition {
    /// The model's own event is due, and there is no input.
    Internal,
    /// The model's own event is due, and there is input.
    Confluent,
    /// There is input before the model's own event is due.
    External,
    /// Neither is the model's own event due, nor is there input: the
    /// state of the model stays as it is.
    Idle,
}

/// The transition that a model makes at `sim_time`, where its own next
/// event is due at `t_next_self`, with input or, if `no_input`, without.
pub open spec fn kind_of(sim_time: Time, t_next_self: Time, no_input: bool) -> Transition {
    if sim_time == t_next_self {
        if no_input {
            Transition::Internal
        } else {
            Transition::Confluent
        }
    } else {
        if no_input {
            Transition::Idle
        } else {
            Transition::External
        }
    }
}

/// The transition that a model makes at `sim_time`: see `kind_of`.
pub fn transition_kind(sim_time: Time, t_next_self: Time, no_input: bool) -> (kind: Transition)
    ensures
        kind == kind_of(sim_time, t_next_self, no_input),
{
    if sim_time == t_next_self {
        if no_input {
            Transition::Internal
        } else {
            Transition::Confluent
        }
    } else if no_input {
        Transition::Idle
    } else {
        Transition::External
    }
}

/// The error with which a run ends when a behaviour refuses its confluent
/// transition: `ErrorConfluent`, with the message of the behaviour.
pub fn refusal(error: ExdsdevsError) -> (refused: ExdsdevsError)
    ensures
        refused is ErrorConfluent,
        error is ErrorConfluent ==> refused == error,
        !(error is ErrorConfluent) ==> refused.message() == error.label() + error.message(),
{
    match error {
        ExdsdevsError::ErrorConfluent(message) => ExdsdevsError::ErrorConfluent(message),
        other => ExdsdevsError::ErrorConfluent(other.to_string()),
    }
}

/// The time of the next event of a model itself, whose last transition was
/// at `t_last` and whose behaviour asks for `advance` more: their sum. The
/// error is `ErrorTimeOverflow` exactly if the sum cannot be held.
pub fn schedule(t_last: Time, advance: Time) -> (next: Result<Time, ExdsdevsError>)
    ensures
        match next {
            Ok(time) => t_last.sum_fits(advance) && time == t_last.plus(advance),
            Err(error) => !t_last.sum_fits(advance) && error is ErrorTimeOverflow,
        },
{
    match t_last.checked_add(advance) {
        Some(time) => Ok(time),
        None => Err(
            ExdsdevsError::ErrorTimeOverflow(
                "the time of the next event cannot be held".to_owned(),
            ),
        ),
    }
}

/// The time since the last transition at `t_last`, at `sim_time`: their
/// difference. The error is `ErrorTimeOverflow` exactly if the difference
/// cannot be held.
pub fn elapsed_since(t_last: Time, sim_time: Time) -> (elapsed: Result<Time, ExdsdevsError>)
    ensures
        match elapsed {
            Ok(time) => sim_time.difference_fits(t_last) && time == sim_time.minus(t_last),
            Err(error) => !sim_time.difference_fits(t_last) && error is ErrorTimeOverflow,
        },
{
    match sim_time.checked_sub(t_last) {
        Some(time) => Ok(time),
        None => Err(
            ExdsdevsError::ErrorTimeOverflow(
                "the time since the last transition cannot be held".to_owned(),
            ),
        ),
    }
}

impl Simulator {
    /// The lowest `t_next` among the first `n` of `children`; `Inf` if
    /// there are none.
    pub open spec fn lowest_t_next(children: Seq<Simulator>, n: int) -> Time
        decreases n,
    {
        if n <= 0 || n > children.len() {
            Time::Inf
        } else {
            Simulator::lowest_t_next(children, n - 1).earlier(children[n - 1].t_next)
        }
    }

    /// The lowest `t_next` of simulators is the lowest of their clocks.
    pub proof fn lowest_of_clocks(children: Seq<Simulator>, n: int)
        requires
            0 <= n <= children.len(),
        ensures
            Simulator::lowest_t_next(children, n) == Clock::lowest(
                Simulator::clocks_of(children, children.len() as int),
                n,
            ),
        decreases n,
    {
        Simulator::views_of_children(children, children.len() as int);
        if n > 0 {
            Simulator::lowest_of_clocks(children, n - 1);
            children[n - 1].unfold();
        }
    }

    /// Initializes every simulator of `children`, in their order, and
    /// gives the lowest of their `t_next`.
    fn init_all(children: &mut Vec<Simulator>, init_time: Time, rng: &mut StdRng) -> (lowest: Result<
        Time,
        ExdsdevsError,
    >)
        requires
            forall|i: int| 0 <= i < old(children)@.len() ==> (#[trigger] old(children)@[i]).wf(),
        ensures
            final(children)@.len() == old(children)@.len(),
            forall|i: int|
                0 <= i < final(children)@.len() ==> {
                    &&& (#[trigger] final(children)@[i]).wf()
                    &&& final(children)@[i].shape() == old(children)@[i].shape()
                    &&& old(children)@[i].idle() ==> final(children)@[i].idle()
                },
            lowest matches Ok(time) ==> {
                &&& time
                    == Simulator::lowest_t_next(final(children)@, final(children)@.len() as int)
                &&& forall|i: int|
                    0 <= i < final(children)@.len() ==> {
                        &&& (#[trigger] final(children)@[i]).clock().all_at(init_time)
                        &&& final(children)@[i].clock().settled()
                        &&& !(init_time is StopSim) ==> final(children)@[i].clock().unstopped()
                    }
            },
            lowest matches Err(error) ==> error is ErrorTimeOverflow,
            !(init_time is Value) ==> lowest is Ok,
        decreases *old(children),
    {
        let mut lowest = Time::Inf;
        let mut i: usize = 0;
        while i < children.len()
            invariant
                i <= children@.len(),
                children@.len() == old(children)@.len(),
                forall|j: int| i <= j < children@.len() ==> children@[j] == old(children)@[j],
                forall|j: int| 0 <= j < old(children)@.len()
                    ==> (#[trigger] old(children)@[j]).wf(),
                forall|j: int|
                    0 <= j < children@.len() ==> {
                        &&& (#[trigger] children@[j]).wf()
                        &&& children@[j].shape() == old(children)@[j].shape()
                        &&& old(children)@[j].idle() ==> children@[j].idle()
                    },
                forall|j: int|
                    0 <= j < i ==> {
                        &&& (#[trigger] children@[j]).clock().all_at(init_time)
                        &&& children@[j].clock().settled()
                        &&& !(init_time is StopSim) ==> children@[j].clock().unstopped()
                    },
                lowest == Simulator::lowest_t_next(children@, i as int),
            decreases children@.len() - i,
        {
            let ghost before = children@;
            match children[i].init(init_time, rng) {
                Ok(()) => {},
                Err(error) => {
                    return Err(error);
                },
            }
            lowest = lowest.min(children[i].t_next);
            proof {
                Simulator::lowest_keeps(before, children@, i as int);
            }
            i += 1;
        }
        Ok(lowest)
    }

    /// The lowest `t_next` among the first `n` simulators does not depend
    /// on the simulators behind them.
    pub proof fn lowest_keeps(before: Seq<Simulator>, after: Seq<Simulator>, n: int)
        requires
            0 <= n <= before.len(),
            before.len() == after.len(),
            forall|j: int| 0 <= j < n ==> before[j].t_next == after[j].t_next,
        ensures
            Simulator::lowest_t_next(before, n) == Simulator::lowest_t_next(after, n),
        decreases n,
    {
        if n > 0 {
            Simulator::lowest_keeps(before, after, n - 1);
        }
    }

    /// Initializes the tree at `init_time`: every behaviour is initialized
    /// with the initial value of its model and asked for the time of its
    /// first event, a model before its children, and the observers of
    /// every model are told.
    ///
    /// Unless `init_time` is the request to stop, no model asks the
    /// simulation to stop afterwards: the request to stop adds nothing to
    /// another time.
    ///
    /// The error is `ErrorTimeOverflow`, where the time of a first event cannot
    /// be held. There is none where `init_time` is not finite: then every
    /// sum can be held.
    pub fn init(&mut self, init_time: Time, rng: &mut StdRng) -> (done: Result<(), ExdsdevsError>)
        requires
            old(self).wf(),
        ensures
            final(self).wf(),
            final(self).shape() == old(self).shape(),
            old(self).idle() ==> final(self).idle(),
            done is Ok ==> final(self).clock().all_at(init_time) && final(self).clock().settled(),
            done is Ok && !(init_time is StopSim) ==> final(self).clock().unstopped(),
            done matches Err(error) ==> error is ErrorTimeOverflow,
            !(init_time is Value) ==> done is Ok,
        decreases *old(self),
    {
        proof {
            old(self).unfold();
        }
        self.sim_model.init(init_time, &self.init_value, rng);
        self.t_last = init_time;
        let advance = self.sim_model.time_advance(rng);
        match schedule(init_time, advance) {
            Ok(t_next_self) => {
                self.t_next_self = t_next_self;
            },
            Err(error) => {
                proof {
                    self.unfold();
                    assert(self.shape().children =~= old(self).shape().children);
                }
                return Err(error);
            },
        }
        let lowest = Simulator::init_all(&mut self.sub_simulators, init_time, rng);
        proof {
            self.unfold();
            assert(self.child_names() =~= old(self).child_names()) by {
                assert forall|i: int| 0 <= i < self.sub_simulators@.len() implies self.child_names()[i]
                    == old(self).child_names()[i] by {
                    self.sub_simulators@[i].unfold();
                    old(self).sub_simulators@[i].unfold();
                }
            }
            assert(self.shape().children =~= old(self).shape().children);
        }
        match lowest {
            Ok(lowest) => {
                self.t_next = lowest.min(self.t_next_self);
                tell(
                    &mut self.observers,
                    &self.sim_model,
                    &Notice::Start {
                        variant: self.variant,
                        iteration: self.iteration,
                        init_time,
                        init_value: &self.init_value,
                        t_next: self.t_next,
                    },
                );
                proof {
                    self.unfold();
                    assert(self.shape().children =~= old(self).shape().children);
                    Simulator::lowest_of_clocks(
                        self.sub_simulators@,
                        self.sub_simulators@.len() as int,
                    );
                    earlier_is_the_minimum(lowest, self.t_next_self);
                }
                Ok(())
            },
            Err(error) => Err(error),
        }
    }
}

/// The names of the senders of a mail, in its order.
pub open spec fn mail_names(mail: Seq<MailItem>) -> Seq<Seq<char>> {
    Seq::new(mail.len(), |i: int| mail[i].model_name@)
}

/// The names `names`, and behind them those of `more` that are not among
/// the names in front of them.
pub open spec fn noted(names: Seq<Seq<char>>, more: Seq<Seq<char>>) -> Seq<Seq<char>>
    decreases more.len(),
{
    if more.len() == 0 {
        names
    } else {
        let before = noted(names, more.drop_last());
        if before.contains(more.last()) {
            before
        } else {
            before.push(more.last())
        }
    }
}

/// What is noted holds the names that were there, and the names that were
/// to be noted.
pub proof fn noted_holds_both(names: Seq<Seq<char>>, more: Seq<Seq<char>>)
    ensures
        forall|name: Seq<char>| #[trigger] names.contains(name) ==> noted(names, more).contains(name),
        forall|name: Seq<char>| #[trigger] more.contains(name) ==> noted(names, more).contains(name),
        names.len() <= noted(names, more).len(),
    decreases more.len(),
{
    if more.len() > 0 {
        let front = more.drop_last();
        noted_holds_both(names, front);
        let before = noted(names, front);
        let after = noted(names, more);
        assert forall|name: Seq<char>| #[trigger] names.contains(name) implies after.contains(
            name,
        ) by {
            assert(before.contains(name));
            let k = choose|k: int| 0 <= k < before.len() && before[k] == name;
            assert(after[k] == name);
        }
        assert forall|name: Seq<char>| #[trigger] more.contains(name) implies after.contains(
            name,
        ) by {
            let m = choose|m: int| 0 <= m < more.len() && more[m] == name;
            if m < front.len() {
                assert(front[m] == name);
                assert(front.contains(name));
                assert(before.contains(name));
                let k = choose|k: int| 0 <= k < before.len() && before[k] == name;
                assert(after[k] == name);
            } else {
                if before.contains(name) {
                } else {
                    assert(after[after.len() - 1] == name);
                }
            }
        }
    }
}

impl Simulator {
    /// The names of those among the first `n` of `children` whose next
    /// event is due at `time`.
    pub open spec fn due_names(children: Seq<Simulator>, time: Time, n: int) -> Seq<Seq<char>>
        decreases n,
    {
        if n <= 0 || n > children.len() {
            Seq::empty()
        } else {
            let before = Simulator::due_names(children, time, n - 1);
            if children[n - 1].t_next == time {
                before.push(children[n - 1].name@)
            } else {
                before
            }
        }
    }

    /// The names of the children that are due hold the name of every child
    /// that is due.
    pub proof fn due_names_hold(children: Seq<Simulator>, time: Time, n: int, i: int)
        requires
            0 <= i < n <= children.len(),
            children[i].t_next == time,
        ensures
            Simulator::due_names(children, time, n).contains(children[i].name@),
        decreases n,
    {
        let names = Simulator::due_names(children, time, n);
        if i < n - 1 {
            Simulator::due_names_hold(children, time, n - 1, i);
            let before = Simulator::due_names(children, time, n - 1);
            let k = choose|k: int| 0 <= k < before.len() && before[k] == children[i].name@;
            assert(names[k] == children[i].name@);
        } else {
            assert(names[names.len() - 1] == children[i].name@);
        }
    }

    /// Whether the simulator can be asked for output at `time`: an event
    /// of its model or of a model below is due then.
    pub open spec fn due(&self, time: Time) -> bool {
        time == self.t_next_self || time == self.t_next
    }

    /// The time of the next event of the tree.
    pub fn t_next(&self) -> (time: Time)
        ensures
            time == self.t_next,
    {
        self.t_next
    }

    /// Whether the model has children.
    pub fn has_submodels(&self) -> (coupled: bool)
        ensures
            coupled == self.sim_model.structure is Some,
    {
        self.sim_model.has_submodels()
    }

    /// The full name of the model.
    pub fn sim_model_full_name(&self) -> (name: &str)
        ensures
            name@ == self.sim_model.full_name@,
    {
        self.sim_model.full_name()
    }

    /// Whether `item` is what the child `before` sends at `time`, `after`
    /// being that child once its output is gathered: the child is due, the
    /// item stands under its name, and where the event that is due is not
    /// the child's own, the item holds what the external output couplings
    /// of the child carry from the mail that the child has gathered. Where
    /// the event is the child's own, its behaviour decides what the item
    /// holds.
    pub open spec fn relays(before: Simulator, after: Simulator, time: Time, item: MailItem) -> bool {
        &&& item.model_name@ == before.name@
        &&& before.t_next == time
        &&& time != before.t_next_self ==> bag_view(item.y_bag@) == outbound(
            mail_view(after.mail@),
            before.sim_model.eoc(),
        )
    }

    /// Whether `item` is what one of the first `n` of the children
    /// `before` sends at `time`: see `relays`.
    pub open spec fn some_relay(
        before: Seq<Simulator>,
        after: Seq<Simulator>,
        n: int,
        time: Time,
        item: MailItem,
    ) -> bool {
        exists|i: int|
            0 <= i < n && i < before.len() && i < after.len() && Simulator::relays(
                #[trigger] before[i],
                after[i],
                time,
                item,
            )
    }

    /// Gathers the output of every simulator of `children` that is due at
    /// `sim_time`, in their order: the name of each is noted in
    /// `imminent`, and its output is added to `mail`.
    fn collect_all(
        children: &mut Vec<Simulator>,
        imminent: &mut Vec<String>,
        mail: &mut Mail,
        sim_time: Time,
    ) -> (done: Result<(), ExdsdevsError>)
        requires
            forall|i: int| 0 <= i < old(children)@.len() ==> (#[trigger] old(children)@[i]).wf(),
        ensures
            done is Ok,
            final(children)@.len() == old(children)@.len(),
            forall|i: int|
                0 <= i < final(children)@.len() ==> {
                    &&& (#[trigger] final(children)@[i]).wf()
                    &&& final(children)@[i].shape() == old(children)@[i].shape()
                    &&& final(children)@[i].clock() == old(children)@[i].clock()
                    &&& final(children)@[i].name == old(children)@[i].name
                    &&& final(children)@[i].t_next == old(children)@[i].t_next
                    &&& old(children)@[i].t_next != sim_time
                        ==> final(children)@[i] == old(children)@[i]
                    &&& old(children)@[i].idle() ==> final(children)@[i].gathered()
                },
            mail_names(final(mail)@) == mail_names(old(mail)@) + Simulator::due_names(
                old(children)@,
                sim_time,
                old(children)@.len() as int,
            ),
            forall|k: int| 0 <= k < old(mail)@.len() ==> final(mail)@[k] == old(mail)@[k],
            forall|k: int|
                old(mail)@.len() <= k < final(mail)@.len() ==> Simulator::some_relay(
                    old(children)@,
                    final(children)@,
                    old(children)@.len() as int,
                    sim_time,
                    #[trigger] final(mail)@[k],
                ),
            names_view(final(imminent)@) == noted(
                names_view(old(imminent)@),
                Simulator::due_names(old(children)@, sim_time, old(children)@.len() as int),
            ),
        decreases *old(children),
    {
        let ghost names = names_view(imminent@);
        let ghost senders = mail_names(mail@);
        let mut i: usize = 0;
        proof {
            assert forall|j: int| 0 <= j < children@.len() && children@[j].idle() implies (
            #[trigger] children@[j]).gathered() by {
                children@[j].idle_is_gathered();
            }
            assert(mail_names(mail@) =~= senders + Simulator::due_names(
                old(children)@,
                sim_time,
                0,
            ));
        }
        while i < children.len()
            invariant
                i <= children@.len(),
                children@.len() == old(children)@.len(),
                names == names_view(old(imminent)@),
                senders == mail_names(old(mail)@),
                forall|j: int| i <= j < children@.len() ==> children@[j] == old(children)@[j],
                forall|j: int| 0 <= j < old(children)@.len()
                    ==> (#[trigger] old(children)@[j]).wf(),
                forall|j: int|
                    0 <= j < children@.len() ==> {
                        &&& (#[trigger] children@[j]).wf()
                        &&& children@[j].shape() == old(children)@[j].shape()
                        &&& children@[j].clock() == old(children)@[j].clock()
                        &&& children@[j].name == old(children)@[j].name
                        &&& children@[j].t_next == old(children)@[j].t_next
                        &&& old(children)@[j].t_next != sim_time
                            ==> children@[j] == old(children)@[j]
                        &&& old(children)@[j].idle() ==> children@[j].gathered()
                    },
                mail@.len() >= old(mail)@.len(),
                forall|k: int| 0 <= k < old(mail)@.len() ==> mail@[k] == old(mail)@[k],
                forall|k: int|
                    old(mail)@.len() <= k < mail@.len() ==> Simulator::some_relay(
                        old(children)@,
                        children@,
                        i as int,
                        sim_time,
                        #[trigger] mail@[k],
                    ),
                mail_names(mail@) == senders + Simulator::due_names(
                    old(children)@,
                    sim_time,
                    i as int,
                ),
                names_view(imminent@) == noted(
                    names,
                    Simulator::due_names(old(children)@, sim_time, i as int),
                ),
            decreases children@.len() - i,
        {
            let ghost due_before = Simulator::due_names(old(children)@, sim_time, i as int);
            if children[i].t_next == sim_time {
                let name = children[i].name.clone();
                let ghost noted_before = names_view(imminent@);
                let ghost senders_before = mail_names(mail@);
                let ghost kids = children@;
                let ghost letters = mail@;
                if !holds_name(imminent, &name) {
                    imminent.push(name.clone());
                    proof {
                        assert(names_view(imminent@) =~= noted_before.push(name@));
                    }
                }
                match children[i].collect_outputs(sim_time) {
                    Ok(y_bag) => {
                        mail.push(MailItem { model_name: name, y_bag });
                        proof {
                            assert(mail_names(mail@) =~= senders_before.push(name@));
                            assert(due_before.push(name@).drop_last() =~= due_before);
                            assert forall|k: int|
                                old(mail)@.len() <= k < mail@.len() implies Simulator::some_relay(
                                old(children)@,
                                children@,
                                i + 1,
                                sim_time,
                                #[trigger] mail@[k],
                            ) by {
                                if k < letters.len() {
                                    assert(mail@[k] == letters[k]);
                                    assert(Simulator::some_relay(
                                        old(children)@,
                                        kids,
                                        i as int,
                                        sim_time,
                                        letters[k],
                                    ));
                                    let j = choose|j: int|
                                        0 <= j < i && j < kids.len() && Simulator::relays(
                                            #[trigger] old(children)@[j],
                                            kids[j],
                                            sim_time,
                                            letters[k],
                                        );
                                    assert(children@[j] == kids[j]);
                                    assert(Simulator::relays(
                                        old(children)@[j],
                                        children@[j],
                                        sim_time,
                                        mail@[k],
                                    ));
                                } else {
                                    assert(Simulator::relays(
                                        old(children)@[i as int],
                                        children@[i as int],
                                        sim_time,
                                        mail@[k],
                                    ));
                                }
                            }
                        }
                    },
                    Err(error) => {
                        return Err(error);
                    },
                }
            }
            i += 1;
        }
        Ok(())
    }

    /// Gathers the output of the tree at `sim_time`, at which an event of
    /// the model or of a model below it must be due.
    ///
    /// Where the event of the model itself is due, the output is what its
    /// behaviour emits. Otherwise every child that is due is asked in the
    /// same way, the children in their order; their names are noted, their
    /// output is added to the mail, each under the name of its child, and
    /// the output is what the external output couplings carry from the
    /// mail to the model's own ports. The observers are told of the
    /// output.
    ///
    /// The error is `ErrorSimTime`, and nothing has changed, exactly if no
    /// event is due at `sim_time`.
    pub fn collect_outputs(&mut self, sim_time: Time) -> (output: Result<Bag, ExdsdevsError>)
        requires
            old(self).wf(),
        ensures
            final(self).wf(),
            final(self).shape() == old(self).shape(),
            final(self).clock() == old(self).clock(),
            final(self).name == old(self).name,
            final(self).t_next == old(self).t_next,
            output is Err == !old(self).due(sim_time),
            output matches Err(error) ==> error is ErrorSimTime && *final(self) == *old(self),
            old(self).idle() ==> final(self).gathered(),
            output is Ok && sim_time == old(self).t_next_self ==> {
                &&& final(self).mail == old(self).mail
                &&& final(self).imminent == old(self).imminent
                &&& final(self).sub_simulators == old(self).sub_simulators
            },
            output matches Ok(bag) ==> sim_time != old(self).t_next_self ==> {
                &&& bag_view(bag@)
                    == outbound(mail_view(final(self).mail@), old(self).sim_model.eoc())
                &&& mail_names(final(self).mail@) == mail_names(old(self).mail@)
                    + Simulator::due_names(
                    old(self).sub_simulators@,
                    sim_time,
                    old(self).sub_simulators@.len() as int,
                )
                &&& forall|k: int|
                    0 <= k < old(self).mail@.len() ==> final(self).mail@[k] == old(self).mail@[k]
                &&& forall|k: int|
                    old(self).mail@.len() <= k < final(self).mail@.len() ==> Simulator::some_relay(
                        old(self).sub_simulators@,
                        final(self).sub_simulators@,
                        old(self).sub_simulators@.len() as int,
                        sim_time,
                        #[trigger] final(self).mail@[k],
                    )
                &&& names_view(final(self).imminent@) == noted(
                    names_view(old(self).imminent@),
                    Simulator::due_names(
                        old(self).sub_simulators@,
                        sim_time,
                        old(self).sub_simulators@.len() as int,
                    ),
                )
            },
        decreases *old(self),
    {
        proof {
            old(self).unfold();
            if old(self).idle() {
                old(self).idle_is_gathered();
            }
        }
        let bag = if sim_time == self.t_next_self {
            self.sim_model.output(sim_time)
        } else if sim_time == self.t_next {
            match Simulator::collect_all(
                &mut self.sub_simulators,
                &mut self.imminent,
                &mut self.mail,
                sim_time,
            ) {
                Ok(()) => {},
                Err(error) => {
                    return Err(error);
                },
            }
            self.sim_model.get_y_bag_from_mail(&self.mail)
        } else {
            return Err(
                ExdsdevsError::ErrorSimTime(
                    "no event is due at the time at which output is asked for".to_owned(),
                ),
            );
        };
        tell(
            &mut self.observers,
            &self.sim_model,
            &Notice::Outputs { sim_time, bag: &bag, t_next: self.t_next },
        );
        proof {
            self.unfold();
            assert(self.child_names() =~= old(self).child_names());
            assert(self.shape().children =~= old(self).shape().children);
            assert(self.clock().children =~= old(self).clock().children);
            if old(self).idle() && sim_time != old(self).t_next_self {
                let children = old(self).sub_simulators@;
                let due = Simulator::due_names(children, sim_time, children.len() as int);
                old(self).unfold_idle();
                self.unfold_gathered();
                noted_holds_both(names_view(old(self).imminent@), due);
                assert(mail_names(self.mail@).len() == self.mail@.len());
                assert(mail_names(old(self).mail@).len() == 0);
                assert forall|i: int| 0 <= i < self.sub_simulators@.len() implies {
                    &&& (#[trigger] self.sub_simulators@[i]).gathered()
                    &&& names_view(self.imminent@).contains(self.sub_simulators@[i].name@)
                        || self.sub_simulators@[i].idle()
                } by {
                    assert(children[i].idle());
                    if children[i].t_next == sim_time {
                        Simulator::due_names_hold(children, sim_time, children.len() as int, i);
                    }
                }
            }
        }
        Ok(bag)
    }

    /// Tells the model what its children have emitted at `sim_time`, and
    /// asks its behaviour anew for the time of its own next event. The
    /// next event of the tree is then the earlier of that and of what it
    /// was. The children, the mail and the names of the children that are
    /// due stay as they are.
    ///
    /// The error is `ErrorTimeOverflow`: the time since the last transition, or
    /// the time of the next event, cannot be held. In the first case
    /// nothing has changed. There is no error where `sim_time` is not
    /// finite: then every sum and difference can be held.
    pub fn process_y_messages(&mut self, sim_time: Time, rng: &mut StdRng) -> (done: Result<
        (),
        ExdsdevsError,
    >)
        requires
            old(self).wf(),
        ensures
            final(self).wf(),
            final(self).shape() == old(self).shape(),
            final(self).sub_simulators == old(self).sub_simulators,
            final(self).mail == old(self).mail,
            final(self).imminent == old(self).imminent,
            !sim_time.difference_fits(old(self).t_last)
                ==> done is Err && *final(self) == *old(self),
            done is Ok ==> {
                &&& final(self).t_last == sim_time
                &&& final(self).t_next == final(self).t_next_self.earlier(old(self).t_next)
                &&& !(sim_time is StopSim) ==> !(final(self).t_next_self is StopSim)
            },
            done matches Err(error) ==> error is ErrorTimeOverflow,
            !(sim_time is Value) ==> done is Ok,
    {
        proof {
            old(self).unfold();
        }
        let elapsed = match elapsed_since(self.t_last, sim_time) {
            Ok(elapsed) => elapsed,
            Err(error) => {
                return Err(error);
            },
        };
        self.t_last = sim_time;
        tell(
            &mut self.observers,
            &self.sim_model,
            &Notice::BeforeExternalMail { sim_time, mail: &self.mail, elapsed },
        );
        self.sim_model.external_mail_transition(sim_time, elapsed, &self.mail, rng);
        let advance = self.sim_model.time_advance(rng);
        let scheduled = schedule(self.t_last, advance);
        proof {
            self.unfold();
            assert(self.child_names() =~= old(self).child_names());
            assert(self.shape().children =~= old(self).shape().children);
        }
        match scheduled {
            Ok(t_next_self) => {
                self.t_next_self = t_next_self;
                self.t_next = self.t_next_self.min(self.t_next);
                tell(
                    &mut self.observers,
                    &self.sim_model,
                    &Notice::AfterExternalMail { sim_time, t_next: self.t_next_self },
                );
                proof {
                    self.unfold();
                    assert(self.shape().children =~= old(self).shape().children);
                }
                Ok(())
            },
            Err(error) => Err(error),
        }
    }
}

/// The messages of each of `bags`, bag by bag.
pub open spec fn bags_view(bags: Seq<Bag>) -> Seq<Seq<MsgView>> {
    Seq::new(bags.len(), |i: int| bag_view(bags[i]@))
}

impl Simulator {
    /// Whether `time` lies between the last transition and the next event
    /// of the model itself: only then can the model make a transition.
    pub open spec fn in_window(&self, time: Time) -> bool {
        self.t_last.at_most(time) && time.at_most(self.t_next_self)
    }

    /// What reaches the child at place `i` when `x_bag` reaches the model:
    /// what the router sends it from `x_bag` and from the mail.
    pub open spec fn inbound_of(&self, i: int, x_bag: Seq<MsgView>) -> Seq<MsgView> {
        inbound(
            x_bag,
            mail_view(self.mail@),
            self.sim_model.eic(),
            self.sim_model.ic(),
            self.sub_simulators@[i].name@,
        )
    }

    /// Whether the child at place `i` makes a transition when `x_bag`
    /// reaches the model: it does if it is due, or if input reaches it.
    pub open spec fn calls(&self, i: int, x_bag: Seq<MsgView>) -> bool {
        names_view(self.imminent@).contains(self.sub_simulators@[i].name@) || self.inbound_of(
            i,
            x_bag,
        ).len() > 0
    }

    /// Whether the child at place `i` of `children` makes a transition,
    /// where the names of the children that are due are `due` and what
    /// reaches each child is in `bags`.
    pub open spec fn is_called(children: Seq<Simulator>, due: Seq<Seq<char>>, bags: Seq<Bag>, i: int) -> bool {
        due.contains(children[i].name@) || bags[i]@.len() > 0
    }

    /// Whether the tree is in step with the time `time` and the input
    /// `x_bag`: the time lies in the window of the model and its distance
    /// from the last transition can be held, and the same holds, with its
    /// own input, of every child that makes a transition.
    pub open spec fn accepts(&self, time: Time, x_bag: Seq<MsgView>) -> bool
        decreases self,
    {
        &&& self.in_window(time)
        &&& time.difference_fits(self.t_last)
        &&& forall|i: int|
            0 <= i < self.sub_simulators@.len() ==> (self.calls(i, x_bag) ==> (
            #[trigger] self.sub_simulators@[i]).accepts(time, self.inbound_of(i, x_bag)))
    }

    /// Whether input meets an event somewhere in the tree when `x_bag`
    /// reaches the model at `time`: the own event of the model is due and
    /// `x_bag` is not empty, or the same holds, with its own input, of a
    /// child that makes a transition. Only there is a confluent transition
    /// asked for.
    pub open spec fn meets_event(&self, time: Time, x_bag: Seq<MsgView>) -> bool
        decreases self,
    {
        ||| kind_of(time, self.t_next_self, x_bag.len() == 0) is Confluent
        ||| exists|i: int|
            0 <= i < self.sub_simulators@.len() && self.calls(i, x_bag) && (
            #[trigger] self.sub_simulators@[i]).meets_event(time, self.inbound_of(i, x_bag))
    }

    /// What `meets_event` says of a simulator, one level deep.
    pub proof fn unfold_meets_event(self, time: Time, x_bag: Seq<MsgView>)
        ensures
            self.meets_event(time, x_bag) == (kind_of(
                time,
                self.t_next_self,
                x_bag.len() == 0,
            ) is Confluent || exists|i: int|
                0 <= i < self.sub_simulators@.len() && self.calls(i, x_bag) && (
                #[trigger] self.sub_simulators@[i]).meets_event(time, self.inbound_of(i, x_bag))),
    {
    }

    /// What `accepts` says of a simulator, one level deep.
    pub proof fn unfold_accepts(self, time: Time, x_bag: Seq<MsgView>)
        ensures
            self.accepts(time, x_bag) == (self.in_window(time) && time.difference_fits(self.t_last)
                && forall|i: int|
                0 <= i < self.sub_simulators@.len() ==> (self.calls(i, x_bag) ==> (
                #[trigger] self.sub_simulators@[i]).accepts(time, self.inbound_of(i, x_bag)))),
    {
    }

    /// The lowest `t_next` among the children; `Inf` if there are none.
    pub fn submodels_t_next(&self) -> (lowest: Time)
        ensures
            lowest == Simulator::lowest_t_next(
                self.sub_simulators@,
                self.sub_simulators@.len() as int,
            ),
    {
        let mut lowest = Time::Inf;
        let mut i: usize = 0;
        while i < self.sub_simulators.len()
            invariant
                i <= self.sub_simulators@.len(),
                lowest == Simulator::lowest_t_next(self.sub_simulators@, i as int),
            decreases self.sub_simulators@.len() - i,
        {
            lowest = lowest.min(self.sub_simulators[i].t_next());
            i += 1;
        }
        lowest
    }

    /// What reaches each child when `x_bag` reaches the model: one bag for
    /// each child, in the order of the children.
    pub fn get_submodels_x_bags(&self, x_bag: &Bag) -> (bags: Vec<Bag>)
        ensures
            bags@.len() == self.sub_simulators@.len(),
            forall|i: int|
                0 <= i < bags@.len() ==> bag_view(#[trigger] bags@[i]@) == self.inbound_of(
                    i,
                    bag_view(x_bag@),
                ),
    {
        let mut bags: Vec<Bag> = Vec::new();
        match &self.sim_model.structure {
            Some(structure) => {
                let mut i: usize = 0;
                while i < self.sub_simulators.len()
                    invariant
                        i <= self.sub_simulators@.len(),
                        bags@.len() == i,
                        self.sim_model.structure == Some(*structure),
                        forall|j: int|
                            0 <= j < i ==> bag_view(#[trigger] bags@[j]@) == self.inbound_of(
                                j,
                                bag_view(x_bag@),
                            ),
                    decreases self.sub_simulators@.len() - i,
                {
                    bags.push(
                        inbound_bag(
                            x_bag,
                            &self.mail,
                            &structure.external_input_couplings,
                            &structure.internal_couplings,
                            &self.sub_simulators[i].name,
                        ),
                    );
                    i += 1;
                }
            },
            None => {
                let mut i: usize = 0;
                while i < self.sub_simulators.len()
                    invariant
                        i <= self.sub_simulators@.len(),
                        bags@.len() == i,
                        self.sim_model.structure is None,
                        forall|j: int|
                            0 <= j < i ==> bag_view(#[trigger] bags@[j]@) == self.inbound_of(
                                j,
                                bag_view(x_bag@),
                            ),
                    decreases self.sub_simulators@.len() - i,
                {
                    let none: Vec<crate::couplings::Coupling> = Vec::new();
                    proof {
                        assert(crate::couplings::couplings_view(none@) =~= Seq::empty());
                    }
                    bags.push(inbound_bag(x_bag, &self.mail, &none, &none, &self.sub_simulators[i].name));
                    i += 1;
                }
            },
        }
        bags
    }

    /// Sends what the router has found on to `children`: every child that
    /// is due, and that nothing reaches, makes its transition at `sim_time`
    /// without input; then every child that something reaches makes its
    /// transition with that as its input, each time the children in their
    /// order. The names of the children that are due are `imminent`, and
    /// what reaches each child is in `bags`. The mail and the names of the
    /// children that are due are cleared.
    fn sent_x_bag_to_submodels(
        children: &mut Vec<Simulator>,
        imminent: &mut Vec<String>,
        mail: &mut Mail,
        bags: Vec<Bag>,
        sim_time: Time,
        rng: &mut StdRng,
    ) -> (done: Result<(), ExdsdevsError>)
        requires
            bags@.len() == old(children)@.len(),
            forall|i: int| 0 <= i < old(children)@.len() ==> (#[trigger] old(children)@[i]).wf(),
        ensures
            final(children)@.len() == old(children)@.len(),
            forall|i: int|
                0 <= i < final(children)@.len() ==> {
                    &&& (#[trigger] final(children)@[i]).wf()
                    &&& final(children)@[i].shape() == old(children)@[i].shape()
                    &&& final(children)@[i].name == old(children)@[i].name
                    &&& !Simulator::is_called(old(children)@, names_view(old(imminent)@), bags@, i)
                        ==> final(children)@[i] == old(children)@[i]
                },
            done is Ok ==> {
                &&& final(imminent)@.len() == 0
                &&& final(mail)@.len() == 0
                &&& forall|i: int|
                    0 <= i < final(children)@.len() && Simulator::is_called(
                        old(children)@,
                        names_view(old(imminent)@),
                        bags@,
                        i,
                    ) ==> {
                        &&& (#[trigger] old(children)@[i]).accepts(sim_time, bag_view(bags@[i]@))
                        &&& final(children)@[i].t_last == sim_time
                        &&& old(children)@[i].clock().settled()
                            ==> final(children)@[i].clock().settled()
                        &&& old(children)@[i].clock().all_behind(sim_time)
                            ==> final(children)@[i].clock().all_behind(sim_time)
                        &&& old(children)@[i].clock().unstopped() && !(sim_time is StopSim)
                            ==> final(children)@[i].clock().unstopped()
                        &&& old(children)@[i].gathered() ==> final(children)@[i].idle()
                    }
            },
            done matches Err(error) ==> error is ErrorSimTime || error is ErrorConfluent
                || error is ErrorTimeOverflow,
            (forall|i: int|
                0 <= i < old(children)@.len() && Simulator::is_called(
                    old(children)@,
                    names_view(old(imminent)@),
                    bags@,
                    i,
                ) ==> (#[trigger] old(children)@[i]).accepts(sim_time, bag_view(bags@[i]@)))
                ==> !(done matches Err(error) && error is ErrorSimTime),
            (forall|i: int|
                0 <= i < old(children)@.len() && Simulator::is_called(
                    old(children)@,
                    names_view(old(imminent)@),
                    bags@,
                    i,
                ) ==> !(#[trigger] old(children)@[i]).meets_event(sim_time, bag_view(bags@[i]@)))
                ==> !(done matches Err(error) && error is ErrorConfluent),
            !(sim_time is Value) ==> !(done matches Err(error) && error is ErrorTimeOverflow),
        decreases *old(children), 0int,
    {
        mail.clear();
        let ghost due = names_view(imminent@);
        let mut i: usize = 0;
        while i < children.len()
            invariant
                i <= children@.len(),
                children@.len() == old(children)@.len(),
                bags@.len() == children@.len(),
                due == names_view(imminent@),
                due == names_view(old(imminent)@),
                mail@.len() == 0,
                forall|j: int| i <= j < children@.len() ==> children@[j] == old(children)@[j],
                forall|j: int| 0 <= j < old(children)@.len()
                    ==> (#[trigger] old(children)@[j]).wf(),
                forall|j: int|
                    0 <= j < children@.len() ==> {
                        &&& (#[trigger] children@[j]).wf()
                        &&& children@[j].shape() == old(children)@[j].shape()
                        &&& children@[j].name == old(children)@[j].name
                        &&& !(due.contains(old(children)@[j].name@) && bags@[j]@.len() == 0)
                            ==> children@[j] == old(children)@[j]
                    },
                forall|j: int|
                    0 <= j < i && due.contains(old(children)@[j].name@) && bags@[j]@.len() == 0
                        ==> {
                        &&& (#[trigger] old(children)@[j]).accepts(sim_time, bag_view(bags@[j]@))
                        &&& children@[j].t_last == sim_time
                        &&& old(children)@[j].clock().settled() ==> children@[j].clock().settled()
                        &&& old(children)@[j].clock().all_behind(sim_time)
                            ==> children@[j].clock().all_behind(sim_time)
                        &&& old(children)@[j].clock().unstopped() && !(sim_time is StopSim)
                            ==> children@[j].clock().unstopped()
                        &&& old(children)@[j].gathered() ==> children@[j].idle()
                    },
            decreases children@.len() - i,
        {
            if bags[i].len() == 0 && holds_name(imminent, &children[i].name) {
                let nothing: Bag = Vec::new();
                proof {
                    assert(bag_view(nothing@) =~= bag_view(bags@[i as int]@));
                    old(children)@[i as int].clock().settled_below();
                }
                match children[i].process_x_messages(sim_time, nothing, rng) {
                    Ok(()) => {},
                    Err(error) => {
                        return Err(error);
                    },
                }
            }
            i += 1;
        }
        imminent.clear();
        let count = bags.len();
        let mut k: usize = 0;
        for bag in iter: bags
            invariant
                iter.seq() == bags@,
                k == iter.index(),
                bags@.len() == count,
                children@.len() == old(children)@.len(),
                bags@.len() == children@.len(),
                due == names_view(old(imminent)@),
                mail@.len() == 0,
                imminent@.len() == 0,
                forall|j: int| 0 <= j < old(children)@.len()
                    ==> (#[trigger] old(children)@[j]).wf(),
                forall|j: int|
                    k <= j < children@.len() && bags@[j]@.len() > 0 ==> children@[j] == old(
                        children,
                    )@[j],
                forall|j: int|
                    0 <= j < children@.len() ==> {
                        &&& (#[trigger] children@[j]).wf()
                        &&& children@[j].shape() == old(children)@[j].shape()
                        &&& children@[j].name == old(children)@[j].name
                        &&& !Simulator::is_called(old(children)@, due, bags@, j) ==> children@[j]
                            == old(children)@[j]
                    },
                forall|j: int|
                    0 <= j < children@.len()
                        && due.contains(old(children)@[j].name@) && bags@[j]@.len()
                        == 0 ==> {
                        &&& (#[trigger] old(children)@[j]).accepts(sim_time, bag_view(bags@[j]@))
                        &&& children@[j].t_last == sim_time
                        &&& old(children)@[j].clock().settled() ==> children@[j].clock().settled()
                        &&& old(children)@[j].clock().all_behind(sim_time)
                            ==> children@[j].clock().all_behind(sim_time)
                        &&& old(children)@[j].clock().unstopped() && !(sim_time is StopSim)
                            ==> children@[j].clock().unstopped()
                        &&& old(children)@[j].gathered() ==> children@[j].idle()
                    },
                forall|j: int|
                    0 <= j < k && bags@[j]@.len() > 0 ==> {
                        &&& (#[trigger] old(children)@[j]).accepts(sim_time, bag_view(bags@[j]@))
                        &&& children@[j].t_last == sim_time
                        &&& old(children)@[j].clock().settled() ==> children@[j].clock().settled()
                        &&& old(children)@[j].clock().all_behind(sim_time)
                            ==> children@[j].clock().all_behind(sim_time)
                        &&& old(children)@[j].clock().unstopped() && !(sim_time is StopSim)
                            ==> children@[j].clock().unstopped()
                        &&& old(children)@[j].gathered() ==> children@[j].idle()
                    },
        {
            if bag.len() > 0 {
                proof {
                    old(children)@[k as int].clock().settled_below();
                }
                match children[k].process_x_messages(sim_time, bag, rng) {
                    Ok(()) => {},
                    Err(error) => {
                        return Err(error);
                    },
                }
            }
            k += 1;
        }
        Ok(())
    }

    /// Lets the model, and every model below it that is due or that input
    /// reaches, make its transition at `sim_time`, with `x_bag` as the
    /// input of the model.
    ///
    /// The time must lie in the window of the model, between its last
    /// transition and its own next event. The model then makes its
    /// internal transition, if its own event is due and there is no
    /// input; its confluent transition, if its own event is due and there
    /// is input; its external transition, if there is input before its
    /// own event is due; and none, if neither is the case. Its behaviour
    /// is asked for the time of its next event. Its children follow: every
    /// child that is due and that nothing reaches makes its transition
    /// without input, then every child that something reaches makes its
    /// transition with that as its input; the mail and the names of the
    /// children that are due are cleared. At the end the next event of the
    /// tree is the earlier of the next event of the model itself and the
    /// next events of the trees of its children.
    ///
    /// The error is `ErrorSimTime` wherever a time does not lie in the
    /// window of the model that is to make a transition, and only there;
    /// `ErrorTimeOverflow` where a time cannot be held; and
    /// `ErrorConfluent` where a behaviour has no confluent transition. If
    /// the time does not lie in the window of this model, or the time
    /// since its last transition cannot be held, nothing has changed. A
    /// model without children fails for no other reason than these and
    /// the time of its next event. The error is `ErrorConfluent` only
    /// where input meets an event: see `meets_event`. It is
    /// `ErrorTimeOverflow` only where `sim_time` is finite: every other
    /// sum and difference can be held. So the transitions are made
    /// wherever the tree is in step with a time that is not finite, and no
    /// input meets an event.
    pub fn process_x_messages(&mut self, sim_time: Time, x_bag: Bag, rng: &mut StdRng) -> (done:
        Result<(), ExdsdevsError>)
        requires
            old(self).wf(),
        ensures
            final(self).wf(),
            final(self).shape() == old(self).shape(),
            final(self).name == old(self).name,
            !old(self).in_window(sim_time) ==> (done matches Err(error) && error is ErrorSimTime
                && *final(self) == *old(self)),
            done is Ok ==> {
                &&& old(self).accepts(sim_time, bag_view(x_bag@))
                &&& final(self).t_last == sim_time
                &&& final(self).t_next == final(self).t_next_self.earlier(
                    Simulator::lowest_t_next(
                        final(self).sub_simulators@,
                        final(self).sub_simulators@.len() as int,
                    ),
                )
                &&& final(self).sim_model.structure is None
                    ==> final(self).t_next == final(self).t_next_self
                &&& final(self).sim_model.structure is Some ==> final(self).imminent@.len() == 0
                    && final(self).mail@.len() == 0
                &&& old(self).clock().settled_children() ==> final(self).clock().settled()
                &&& old(self).clock().all_behind(sim_time) ==> final(self).clock().all_behind(
                    sim_time,
                )
                &&& old(self).clock().unstopped() && !(sim_time is StopSim)
                    ==> final(self).clock().unstopped()
                &&& old(self).gathered() ==> final(self).idle()
            },
            done is Ok ==> forall|i: int|
                0 <= i < old(self).sub_simulators@.len() ==> if old(self).calls(
                    i,
                    bag_view(x_bag@),
                ) {
                    (#[trigger] final(self).sub_simulators@[i]).t_last == sim_time
                } else {
                    final(self).sub_simulators@[i] == old(self).sub_simulators@[i]
                },
            final(self).sub_simulators@.len() == old(self).sub_simulators@.len(),
            !old(self).in_window(sim_time) ==> *final(rng) == *old(rng),
            kind_of(sim_time, old(self).t_next_self, x_bag@.len() == 0) is Idle
                ==> final(self).sim_model.dynamic == old(self).sim_model.dynamic,
            old(self).accepts(sim_time, bag_view(x_bag@)) ==> !(done matches Err(error)
                && error is ErrorSimTime),
            done matches Err(error) ==> error is ErrorSimTime || error is ErrorConfluent
                || error is ErrorTimeOverflow,
            old(self).in_window(sim_time) && !sim_time.difference_fits(old(self).t_last)
                ==> (done matches Err(error) && error is ErrorTimeOverflow
                && *final(self) == *old(self) && *final(rng) == *old(rng)),
            old(self).in_window(sim_time) && old(self).sub_simulators@.len() == 0
                ==> !(done matches Err(error) && error is ErrorSimTime),
            old(self).sub_simulators@.len() == 0 && !(kind_of(
                sim_time,
                old(self).t_next_self,
                x_bag@.len() == 0,
            ) is Confluent) ==> !(done matches Err(error) && error is ErrorConfluent),
            !old(self).meets_event(sim_time, bag_view(x_bag@)) ==> !(done matches Err(error)
                && error is ErrorConfluent),
            !(sim_time is Value) ==> !(done matches Err(error) && error is ErrorTimeOverflow),
            old(self).accepts(sim_time, bag_view(x_bag@)) && !old(self).meets_event(
                sim_time,
                bag_view(x_bag@),
            ) && !(sim_time is Value) ==> done is Ok,
        decreases *old(self), 1int,
    {
        proof {
            old(self).unfold();
            old(self).unfold_accepts(sim_time, bag_view(x_bag@));
            old(self).unfold_meets_event(sim_time, bag_view(x_bag@));
        }
        if !(sim_time >= self.t_last && sim_time <= self.t_next_self) {
            return Err(
                ExdsdevsError::ErrorSimTime(
                    "the time of a transition lies outside the window of the model".to_owned(),
                ),
            );
        }
        let elapsed = match elapsed_since(self.t_last, sim_time) {
            Ok(elapsed) => elapsed,
            Err(error) => {
                return Err(error);
            },
        };
        self.t_last = sim_time;
        let kind = transition_kind(sim_time, self.t_next_self, x_bag.len() == 0);
        match kind {
            Transition::Internal => {
                tell(&mut self.observers, &self.sim_model, &Notice::BeforeInternal { sim_time });
                self.sim_model.internal_transition(sim_time, rng);
            },
            Transition::Confluent => {
                tell(
                    &mut self.observers,
                    &self.sim_model,
                    &Notice::BeforeConfluent { sim_time, x_bag: &x_bag },
                );
                match self.sim_model.confluent_transition(sim_time, &x_bag, rng) {
                    Ok(()) => {},
                    Err(error) => {
                        proof {
                            self.unfold();
                            assert(self.child_names() =~= old(self).child_names());
                            assert(self.shape().children =~= old(self).shape().children);
                        }
                        return Err(refusal(error));
                    },
                }
            },
            Transition::External => {
                tell(
                    &mut self.observers,
                    &self.sim_model,
                    &Notice::BeforeExternal { sim_time, x_bag: &x_bag, elapsed },
                );
                self.sim_model.external_transition(sim_time, elapsed, &x_bag, rng);
            },
            Transition::Idle => {},
        }
        let advance = self.sim_model.time_advance(rng);
        let scheduled = schedule(self.t_last, advance);
        proof {
            self.unfold();
            assert(self.child_names() =~= old(self).child_names());
            assert(self.shape().children =~= old(self).shape().children);
        }
        match scheduled {
            Ok(t_next_self) => {
                self.t_next_self = t_next_self;
            },
            Err(error) => {
                return Err(error);
            },
        }
        let t_next = self.t_next_self;
        match kind {
            Transition::Internal => {
                tell(
                    &mut self.observers,
                    &self.sim_model,
                    &Notice::AfterInternal { sim_time, t_next },
                );
            },
            Transition::Confluent => {
                tell(
                    &mut self.observers,
                    &self.sim_model,
                    &Notice::AfterConfluent { sim_time, t_next },
                );
            },
            Transition::External => {
                tell(
                    &mut self.observers,
                    &self.sim_model,
                    &Notice::AfterExternal { sim_time, t_next },
                );
            },
            Transition::Idle => {},
        }
        proof {
            self.unfold();
            assert(self.shape().children =~= old(self).shape().children);
        }
        if self.has_submodels() {
            let ghost before = *self;
            let bags = self.get_submodels_x_bags(&x_bag);
            let sent = Simulator::sent_x_bag_to_submodels(
                &mut self.sub_simulators,
                &mut self.imminent,
                &mut self.mail,
                bags,
                sim_time,
                rng,
            );
            proof {
                self.unfold();
                assert(self.child_names() =~= old(self).child_names());
                assert(self.shape().children =~= old(self).shape().children);
            }
            match sent {
                Ok(()) => {},
                Err(error) => {
                    return Err(error);
                },
            }
            let lowest = self.submodels_t_next();
            self.t_next = self.t_next_self.min(lowest);
            tell(
                &mut self.observers,
                &self.sim_model,
                &Notice::AfterSubmodels { sim_time, t_next: self.t_next },
            );
            proof {
                self.unfold();
                assert(self.shape().children =~= old(self).shape().children);
                Simulator::lowest_of_clocks(self.sub_simulators@, self.sub_simulators@.len() as int);
                let x = bag_view(x_bag@);
                assert forall|i: int|
                    0 <= i < old(self).sub_simulators@.len() && old(self).calls(i, x) implies (
                #[trigger] old(self).sub_simulators@[i]).accepts(
                    sim_time,
                    old(self).inbound_of(i, x),
                ) by {
                    assert(bag_view(bags@[i]@) == before.inbound_of(i, x));
                    assert(before.inbound_of(i, x) == old(self).inbound_of(i, x));
                    assert(Simulator::is_called(
                        old(self).sub_simulators@,
                        names_view(old(self).imminent@),
                        bags@,
                        i,
                    ));
                }
                if old(self).clock().settled_children() {
                    assert forall|i: int| 0 <= i < self.clock().children.len() implies (
                    #[trigger] self.clock().children[i]).settled() by {
                        assert(old(self).clock().children[i].settled());
                        assert(old(self).clock().children[i] == old(self).sub_simulators@[i].clock());
                        assert(self.clock().children[i] == self.sub_simulators@[i].clock());
                    }
                }
                if old(self).clock().all_behind(sim_time) {
                    assert forall|i: int| 0 <= i < self.clock().children.len() implies (
                    #[trigger] self.clock().children[i]).all_behind(sim_time) by {
                        assert(old(self).clock().children[i].all_behind(sim_time));
                        assert(old(self).clock().children[i] == old(self).sub_simulators@[i].clock());
                        assert(self.clock().children[i] == self.sub_simulators@[i].clock());
                    }
                }
                if old(self).clock().unstopped() && !(sim_time is StopSim) {
                    assert forall|i: int| 0 <= i < self.clock().children.len() implies (
                    #[trigger] self.clock().children[i]).unstopped() by {
                        assert(old(self).clock().children[i].unstopped());
                        assert(old(self).clock().children[i] == old(self).sub_simulators@[i].clock());
                        assert(self.clock().children[i] == self.sub_simulators@[i].clock());
                    }
                }
            }
        } else {
            self.t_next = self.t_next_self;
            proof {
                self.unfold();
                assert(self.shape().children =~= old(self).shape().children);
            }
        }
        Ok(())
    }
}

impl Clock {
    /// Whether the times of the tree of every child agree.
    pub open spec fn settled_children(self) -> bool {
        forall|i: int| 0 <= i < self.children.len() ==> (#[trigger] self.children[i]).settled()
    }

    /// Where the times of a tree agree, those of the trees of the children
    /// agree.
    pub proof fn settled_below(self)
        ensures
            self.settled() ==> self.settled_children(),
    {
    }
}

impl Simulator {
    /// Simulators with the same children have the same clocks of children.
    pub proof fn clock_of_children(self, other: Simulator)
        requires
            self.sub_simulators == other.sub_simulators,
        ensures
            self.clock().children == other.clock().children,
            self.clock().settled_children() == other.clock().settled_children(),
    {
        self.unfold();
        other.unfold();
        assert(self.clock().children =~= other.clock().children);
    }
}

impl Simulator {
    /// Tells every observer of `model` that the simulation has ended at
    /// `sim_time`, and gathers what they hand back: the name of each
    /// observer that hands back a result, and the result, in the order of
    /// the observers.
    fn finish_observers(observers: &mut Vec<NamedObserver>, model: &SimModel, sim_time: Time) -> (results:
        ModelSimResults)
        ensures
            observer_names(final(observers)@) == observer_names(old(observers)@),
            results@.len() <= old(observers)@.len(),
            picked_in_order(observer_names(old(observers)@), answer_names(results@)),
    {
        let ghost names = observer_names(observers@);
        let mut results: ModelSimResults = Vec::new();
        let mut i: usize = 0;
        proof {
            assert(answer_names(results@) =~= Seq::empty());
        }
        while i < observers.len()
            invariant
                i <= observers@.len(),
                observer_names(observers@) == names,
                results@.len() <= i,
                picked_in_order(names.take(i as int), answer_names(results@)),
            decreases observers@.len() - i,
        {
            let ghost before = observers@;
            let ghost kept = answer_names(results@);
            let name = observers[i].name.clone();
            let watcher = &mut observers[i].observer;
            let answer = watcher.finish(model, sim_time);
            proof {
                assert(observers@.len() == before.len());
                assert(observers@[i as int].name == before[i as int].name);
                assert(observer_names(observers@) =~= names);
                assert(names[i as int] == name@);
                assert(names.take(i + 1).drop_last() =~= names.take(i as int));
                assert(names.take(i + 1).last() == name@);
            }
            keep_answer(&mut results, &name, answer);
            proof {
                if answer is Some {
                    assert(answer_names(results@) =~= kept.push(name@));
                    assert(answer_names(results@).drop_last() =~= kept);
                } else {
                    assert(answer_names(results@) =~= kept);
                }
            }
            i += 1;
        }
        proof {
            assert(names.take(names.len() as int) =~= names);
        }
        results
    }

    /// Whether `entry` can be the results of the observers of a model in
    /// the tree of one of `children`.
    pub open spec fn some_answer(children: Seq<Simulator>, entry: (String, ModelSimResults)) -> bool {
        exists|i: int| 0 <= i < children.len() && entry_of((#[trigger] children[i]).shape(), entry)
    }

    /// Ends the simulation of every simulator of `children`, in their
    /// order, and gives their results one behind the other.
    fn finish_all(children: &mut Vec<Simulator>, sim_time: Time) -> (results: SimResults)
        requires
            forall|i: int| 0 <= i < old(children)@.len() ==> (#[trigger] old(children)@[i]).wf(),
        ensures
            final(children)@.len() == old(children)@.len(),
            forall|i: int|
                0 <= i < final(children)@.len() ==> {
                    &&& (#[trigger] final(children)@[i]).wf()
                    &&& final(children)@[i].shape() == old(children)@[i].shape()
                    &&& final(children)@[i].clock() == old(children)@[i].clock()
                    &&& final(children)@[i].name == old(children)@[i].name
                    &&& final(children)@[i].idle() == old(children)@[i].idle()
                },
            forall|k: int|
                0 <= k < results@.len() ==> Simulator::some_answer(
                    old(children)@,
                    #[trigger] results@[k],
                ),
            answered_in_order(
                Shape::models_of(
                    Simulator::shapes_of(old(children)@, old(children)@.len() as int),
                    old(children)@.len() as int,
                ),
                entries_view(results@),
            ),
        decreases *old(children),
    {
        let mut results: SimResults = Vec::new();
        let mut i: usize = 0;
        let ghost shapes = Simulator::shapes_of(old(children)@, old(children)@.len() as int);
        proof {
            Simulator::views_of_children(old(children)@, old(children)@.len() as int);
            assert(entries_view(results@) =~= Seq::empty());
        }
        while i < children.len()
            invariant
                i <= children@.len(),
                shapes == Simulator::shapes_of(old(children)@, old(children)@.len() as int),
                shapes.len() == old(children)@.len(),
                forall|j: int|
                    0 <= j < old(children)@.len() ==> #[trigger] shapes[j] == old(
                        children,
                    )@[j].shape(),
                answered_in_order(Shape::models_of(shapes, i as int), entries_view(results@)),
                children@.len() == old(children)@.len(),
                forall|j: int| i <= j < children@.len() ==> children@[j] == old(children)@[j],
                forall|j: int| 0 <= j < old(children)@.len()
                    ==> (#[trigger] old(children)@[j]).wf(),
                forall|j: int|
                    0 <= j < children@.len() ==> {
                        &&& (#[trigger] children@[j]).wf()
                        &&& children@[j].shape() == old(children)@[j].shape()
                        &&& children@[j].clock() == old(children)@[j].clock()
                        &&& children@[j].name == old(children)@[j].name
                        &&& children@[j].idle() == old(children)@[j].idle()
                    },
                forall|k: int|
                    0 <= k < results@.len() ==> Simulator::some_answer(
                        old(children)@,
                        #[trigger] results@[k],
                    ),
            decreases children@.len() - i,
        {
            let ghost before = results@;
            let mut more = children[i].finish(sim_time);
            let ghost added = more@;
            results.append(&mut more);
            proof {
                assert(entries_view(results@) =~= entries_view(before) + entries_view(added));
                answered_one_behind_the_other(
                    Shape::models_of(shapes, i as int),
                    entries_view(before),
                    shapes[i as int].models(),
                    entries_view(added),
                );
                assert forall|k: int| 0 <= k < results@.len() implies Simulator::some_answer(
                    old(children)@,
                    #[trigger] results@[k],
                ) by {
                    if k < before.len() {
                        assert(results@[k] == before[k]);
                    } else {
                        assert(results@[k] == added[k - before.len()]);
                        assert(entry_of(old(children)@[i as int].shape(), results@[k]));
                    }
                }
            }
            i += 1;
        }
        results
    }

    /// Ends the simulation at `sim_time`: every behaviour of the tree and
    /// every observer is told, a model after the models below it. The
    /// result holds, for every model with an observer that hands back a
    /// result, the full name of the model and the results of its
    /// observers, in their order. No model comes twice, and the models
    /// come in the order of `Shape::models`: a model comes behind the
    /// models below it, and the trees of its children come in the order of
    /// the children. Which observers hand back a result is for them to
    /// decide; what is kept of each answer says `keep_answer`.
    pub fn finish(&mut self, sim_time: Time) -> (results: SimResults)
        requires
            old(self).wf(),
        ensures
            final(self).wf(),
            final(self).shape() == old(self).shape(),
            final(self).clock() == old(self).clock(),
            final(self).name == old(self).name,
            final(self).idle() == old(self).idle(),
            forall|k: int|
                0 <= k < results@.len() ==> entry_of(old(self).shape(), #[trigger] results@[k]),
            answered_in_order(old(self).shape().models(), entries_view(results@)),
        decreases *old(self),
    {
        proof {
            old(self).unfold();
        }
        self.sim_model.finish(sim_time);
        let mut results = Simulator::finish_all(&mut self.sub_simulators, sim_time);
        let ghost below = results@;
        let own = Simulator::finish_observers(&mut self.observers, &self.sim_model, sim_time);
        let ghost own_names = answer_names(own@);
        if own.len() > 0 {
            results.push((self.sim_model.full_name.clone(), own));
        }
        proof {
            let shapes = old(self).shape().children;
            let models_below = Shape::models_of(shapes, shapes.len() as int);
            let top = Watched {
                full_name: old(self).shape().full_name,
                observers: old(self).shape().observer_names,
            };
            one_more_model(models_below, entries_view(below), top, own_names);
            if own@.len() > 0 {
                assert(entries_view(results@) =~= entries_view(below).push(
                    Watched { full_name: top.full_name, observers: own_names },
                ));
            } else {
                assert(entries_view(results@) =~= entries_view(below));
            }
            self.unfold();
            assert(self.child_names() =~= old(self).child_names());
            assert(self.shape().children =~= old(self).shape().children);
            assert(self.clock().children =~= old(self).clock().children);
            self.unfold_idle();
            old(self).unfold_idle();
            if old(self).idle() {
                assert forall|i: int| 0 <= i < self.sub_simulators@.len() implies (
                #[trigger] self.sub_simulators@[i]).idle() by {
                    assert(old(self).sub_simulators@[i].idle());
                }
            }
            if self.idle() {
                assert forall|i: int| 0 <= i < self.sub_simulators@.len() implies (#[trigger] old(
                    self,
                ).sub_simulators@[i]).idle() by {
                    assert(self.sub_simulators@[i].idle());
                }
            }
            let shape = old(self).shape();
            assert forall|k: int| 0 <= k < results@.len() implies entry_of(
                shape,
                #[trigger] results@[k],
            ) by {
                if k < below.len() {
                    assert(results@[k] == below[k]);
                    assert(Simulator::some_answer(old(self).sub_simulators@, below[k]));
                    let i = choose|i: int|
                        0 <= i < old(self).sub_simulators@.len() && entry_of(
                            (#[trigger] old(self).sub_simulators@[i]).shape(),
                            below[k],
                        );
                    assert(shape.children[i] == old(self).sub_simulators@[i].shape());
                    assert(shape.children[i].answers(below[k].0@, answer_names(below[k].1@)));
                } else {
                    assert(answer_names(results@[k].1@) == own_names);
                }
            }
        }
        results
    }
}

impl Simulator {
    /// The value that `values` hold for the full name `path`, if they hold
    /// one.
    fn find_init_value(values: &Vec<(String, Value)>, path: &String) -> (found: Option<Value>)
        ensures
            forall|otherwise: Value|
                Shape::value_for(
                    crate::variants::init_values_view(values@),
                    path@,
                    otherwise,
                ) == match found {
                    Some(value) => value,
                    None => otherwise,
                },
    {
        let ghost all = crate::variants::init_values_view(values@);
        let mut i: usize = 0;
        proof {
            assert(all.skip(0) =~= all);
        }
        while i < values.len()
            invariant
                i <= values@.len(),
                all == crate::variants::init_values_view(values@),
                forall|otherwise: Value|
                    Shape::value_for(all, path@, otherwise) == Shape::value_for(
                        all.skip(i as int),
                        path@,
                        otherwise,
                    ),
            decreases values@.len() - i,
        {
            proof {
                assert(all.skip(i as int)[0] == all[i as int]);
                assert(all.skip(i as int).drop_first() =~= all.skip(i + 1));
            }
            if values[i].0 == *path {
                return Some(values[i].1.clone());
            }
            i += 1;
        }
        proof {
            assert(all.skip(i as int).len() == 0);
        }
        None
    }

    /// Gives every simulator of `children` its initial value from `values`.
    fn set_init_values_all(children: &mut Vec<Simulator>, variant: u64, values: &Vec<(String, Value)>)
        requires
            forall|i: int| 0 <= i < old(children)@.len() ==> (#[trigger] old(children)@[i]).wf(),
        ensures
            final(children)@.len() == old(children)@.len(),
            forall|i: int|
                0 <= i < final(children)@.len() ==> {
                    &&& (#[trigger] final(children)@[i]).wf()
                    &&& final(children)@[i].shape() == old(children)@[i].shape().with_init_values(
                        variant,
                        crate::variants::init_values_view(values@),
                    )
                    &&& final(children)@[i].clock() == old(children)@[i].clock()
                    &&& final(children)@[i].name == old(children)@[i].name
                    &&& final(children)@[i].idle() == old(children)@[i].idle()
                },
        decreases *old(children),
    {
        let mut i: usize = 0;
        while i < children.len()
            invariant
                i <= children@.len(),
                children@.len() == old(children)@.len(),
                forall|j: int| i <= j < children@.len() ==> children@[j] == old(children)@[j],
                forall|j: int| 0 <= j < old(children)@.len()
                    ==> (#[trigger] old(children)@[j]).wf(),
                forall|j: int|
                    0 <= j < i ==> {
                        &&& (#[trigger] children@[j]).wf()
                        &&& children@[j].shape() == old(children)@[j].shape().with_init_values(
                        variant,
                            crate::variants::init_values_view(values@),
                        )
                        &&& children@[j].clock() == old(children)@[j].clock()
                        &&& children@[j].name == old(children)@[j].name
                        &&& children@[j].idle() == old(children)@[j].idle()
                    },
            decreases children@.len() - i,
        {
            children[i].set_init_values(variant, values);
            i += 1;
        }
    }

    /// Gives every model of the tree its initial value for a run with the
    /// initial values of the way `variant`: the first value that `values`
    /// hold under its full name. A model for which they hold none keeps
    /// the value that it has.
    pub fn set_init_values(&mut self, variant: u64, values: &Vec<(String, Value)>)
        requires
            old(self).wf(),
        ensures
            final(self).wf(),
            final(self).shape() == old(self).shape().with_init_values(
                        variant,
                crate::variants::init_values_view(values@),
            ),
            final(self).clock() == old(self).clock(),
            final(self).name == old(self).name,
            final(self).idle() == old(self).idle(),
        decreases *old(self),
    {
        proof {
            old(self).unfold();
        }
        match Simulator::find_init_value(values, &self.sim_model.full_name) {
            Some(value) => {
                self.init_value = value;
            },
            None => {},
        }
        self.variant = variant;
        Simulator::set_init_values_all(&mut self.sub_simulators, variant, values);
        proof {
            self.unfold();
            let chosen = crate::variants::init_values_view(values@);
            let wanted = old(self).shape().with_init_values(variant, chosen);
            Shape::all_with_init_values_unfold(
                old(self).shape().children,
                variant,
                chosen,
                old(self).shape().children.len() as int,
            );
            assert(self.child_names() =~= old(self).child_names());
            assert(self.shape().children =~= wanted.children);
            assert(self.clock().children =~= old(self).clock().children);
            self.unfold_idle();
            old(self).unfold_idle();
            if old(self).idle() {
                assert forall|i: int| 0 <= i < self.sub_simulators@.len() implies (
                #[trigger] self.sub_simulators@[i]).idle() by {
                    assert(old(self).sub_simulators@[i].idle());
                }
            }
            if self.idle() {
                assert forall|i: int| 0 <= i < self.sub_simulators@.len() implies (#[trigger] old(
                    self,
                ).sub_simulators@[i]).idle() by {
                    assert(self.sub_simulators@[i].idle());
                }
            }
        }
    }

    /// What `idle` says of a simulator, one level deep.
    pub proof fn unfold_idle(self)
        ensures
            self.idle() == (self.imminent@.len() == 0 && self.mail@.len() == 0 && forall|i: int|
                0 <= i < self.sub_simulators@.len()
                    ==> (#[trigger] self.sub_simulators@[i]).idle()),
    {
    }
}

impl Simulator {
    /// A tree that is in step with a time is in step with it whatever the
    /// input: where no last transition lies after `time`, no next event of
    /// a model lies before it, and every distance to it can be held, the
    /// time lies in the window of every model of the tree, and
    /// `process_x_messages` finds no fault with the times.
    pub proof fn a_tree_in_step_accepts(self, time: Time, x_bag: Seq<MsgView>)
        requires
            self.clock().all_behind(time),
            self.clock().none_overdue(time),
            self.clock().all_in_reach(time),
        ensures
            self.accepts(time, x_bag),
        decreases self,
    {
        self.unfold();
        assert forall|i: int|
            0 <= i < self.sub_simulators@.len() && self.calls(i, x_bag) implies (
        #[trigger] self.sub_simulators@[i]).accepts(time, self.inbound_of(i, x_bag)) by {
            assert(self.clock().children[i].all_behind(time));
            assert(self.clock().children[i].none_overdue(time));
            assert(self.clock().children[i].all_in_reach(time));
            self.sub_simulators@[i].a_tree_in_step_accepts(time, self.inbound_of(i, x_bag));
        }
    }

    /// A tree whose times agree is in step with the time of its next
    /// event, as long as no last transition lies after that time and
    /// every distance to it can be held: the window of every model holds
    /// that time.
    pub proof fn a_settled_tree_accepts_its_next_event(self, x_bag: Seq<MsgView>)
        requires
            self.clock().settled(),
            self.clock().all_behind(self.t_next),
            self.clock().all_in_reach(self.t_next),
        ensures
            self.accepts(self.t_next, x_bag),
    {
        self.unfold();
        self.clock().settled_is_not_overdue();
        self.a_tree_in_step_accepts(self.t_next, x_bag);
    }

    /// Children that are due at the same time, and that nothing reaches,
    /// each make their internal transition. Where the own event of a
    /// child is due at `time`, the child is noted as due, and no coupling
    /// leads to it, the child makes a transition whatever the input
    /// `x_bag` of the model is, nothing reaches it, and the transition is
    /// the internal one.
    pub proof fn a_due_child_that_nothing_reaches_makes_its_internal_transition(
        self,
        i: int,
        time: Time,
        x_bag: Seq<MsgView>,
    )
        requires
            0 <= i < self.sub_simulators@.len(),
            names_view(self.imminent@).contains(self.sub_simulators@[i].name@),
            self.sub_simulators@[i].t_next_self == time,
            no_edge_to(self.sim_model.eic(), Some(self.sub_simulators@[i].name@)),
            no_edge_to(self.sim_model.ic(), Some(self.sub_simulators@[i].name@)),
        ensures
            self.calls(i, x_bag),
            self.inbound_of(i, x_bag) == Seq::<MsgView>::empty(),
            kind_of(time, self.sub_simulators@[i].t_next_self, self.inbound_of(i, x_bag).len() == 0)
                is Internal,
    {
        let child = Some(self.sub_simulators@[i].name@);
        nothing_leaves_where_no_edge_leads(x_bag, self.sim_model.eic(), None, child);
        nothing_arrives_where_no_edge_leads(mail_view(self.mail@), self.sim_model.ic(), child);
        assert(self.inbound_of(i, x_bag) =~= Seq::<MsgView>::empty());
    }

    /// What one child emits reaches another at the time of its own event
    /// as the input of a confluent transition. Where the only coupling
    /// that leads to the child at place `q` is one internal coupling from
    /// the child `sender`, the mail holds the output `y_bag` of that child
    /// and nothing else, and the model itself has no input, the input of
    /// the child is what `y_bag` holds on the port where the coupling
    /// begins, in its order and with its values, on the port where the
    /// coupling ends. Where the own event of the child is due at `time`
    /// and that input is not empty, the child makes its confluent
    /// transition, and no other.
    pub proof fn what_a_child_sends_meets_the_event_of_another(
        self,
        q: int,
        sender: Seq<char>,
        y_bag: Seq<MsgView>,
        time: Time,
    )
        requires
            0 <= q < self.sub_simulators@.len(),
            self.sub_simulators@[q].t_next_self == time,
            self.sim_model.ic().len() == 1,
            self.sim_model.ic()[0].from.model == Some(sender),
            self.sim_model.ic()[0].to.model == Some(self.sub_simulators@[q].name@),
            mail_view(self.mail@) == seq![MailItemView { model_name: sender, y_bag }],
        ensures
            self.inbound_of(q, Seq::empty()) == relabelled(
                y_bag,
                self.sim_model.ic()[0].from.port,
                self.sim_model.ic()[0].to.port,
            ),
            self.inbound_of(q, Seq::empty()).len() > 0 ==> self.calls(q, Seq::empty()) && kind_of(
                time,
                self.sub_simulators@[q].t_next_self,
                self.inbound_of(q, Seq::empty()).len() == 0,
            ) is Confluent,
    {
        let child = Some(self.sub_simulators@[q].name@);
        let edge = self.sim_model.ic()[0];
        let mail = mail_view(self.mail@);
        assert(self.sim_model.ic() =~= seq![edge]);
        assert(mail.drop_last() =~= Seq::<MailItemView>::empty());
        assert(route_mail(mail.drop_last(), self.sim_model.ic(), child) =~= Seq::<MsgView>::empty());
        one_edge_relabels(y_bag, edge, Some(sender), child);
        let nothing = Seq::<MsgView>::empty();
        assert(route_bag(nothing, self.sim_model.eic(), None, child) =~= nothing);
        assert(self.inbound_of(q, Seq::empty()) =~= relabelled(y_bag, edge.from.port, edge.to.port));
    }

    /// A behaviour must not ask for a negative time to its next event.
    /// Where the last transition of a model was at the finite time
    /// `t_last`, and its next event is set `advance` later with a
    /// negative `advance`, no time lies in the window of the model any
    /// more: whenever the model is to make a transition,
    /// `process_x_messages` answers with the error `ErrorSimTime`.
    pub proof fn a_negative_advance_closes_the_window(
        self,
        t_last: i64,
        advance: i64,
        time: Time,
        x_bag: Seq<MsgView>,
    )
        requires
            advance < 0,
            Time::Value(t_last).sum_fits(Time::Value(advance)),
            self.t_last == Time::Value(t_last),
            self.t_next_self == Time::Value(t_last).plus(Time::Value(advance)),
        ensures
            !self.in_window(time),
            !self.accepts(time, x_bag),
    {
    }
}

} // verus!
