//! The description of a model, from which a simulator is built.

use crate::couplings::{couplings_view, holds_coupling, Coupling, CouplingView, Endpoint};
use crate::dynamic::{DefaultDynamic, Dynamic};
use crate::json::{json_null, optional_integer_value};
use crate::names::{
    comes_before, holds_name, names_rise, names_view, place, place_divides, place_is_the_only_one,
    rising_names_stay_rising, text_before,
};
use crate::observer::{observer_names, NamedObserver, Observer};
use serde_json::Value;
use vstd::prelude::*;

verus! {

/// A child of a coupled model, under the name by which its parent knows it.
pub struct Submodel {
    pub name: String,
    pub model: Model,
}

/// The description of a model: its behaviour, its ports, its children and
/// the couplings between their ports and its own, and its observers.
///
/// A description is put together step by step:
/// `Model::default().with_dynamic(..).with_submodel(..)`, and so on.
pub struct Model {
    /// The behaviour.
    pub dynamic: Box<dyn Dynamic>,
    /// The names of the input ports.
    pub input_ports: Vec<String>,
    /// The names of the output ports.
    pub output_ports: Vec<String>,
    /// The children, in the order of their names.
    pub submodels: Vec<Submodel>,
    /// The external input couplings, none of them twice.
    pub input_couplings: Vec<Coupling>,
    /// The internal couplings, none of them twice.
    pub internal_couplings: Vec<Coupling>,
    /// The external output couplings, none of them twice.
    pub output_couplings: Vec<Coupling>,
    /// The observers, in the order in which they were given.
    pub observers: Vec<NamedObserver>,
    /// The initial value that the behaviour is handed when no other is chosen.
    pub default_init: Value,
    /// The initial values that an experiment chooses from, each under its
    /// name, in the order in which they were given.
    pub init_variants: Vec<(String, Value)>,
}

/// A description without its behaviours and observers: what contracts
/// say of a description.
pub struct ModelView {
    pub input_ports: Seq<Seq<char>>,
    pub output_ports: Seq<Seq<char>>,
    pub child_names: Seq<Seq<char>>,
    pub children: Seq<ModelView>,
    pub input_couplings: Seq<CouplingView>,
    pub internal_couplings: Seq<CouplingView>,
    pub output_couplings: Seq<CouplingView>,
    pub observer_names: Seq<Seq<char>>,
    pub default_init: Value,
    pub init_variants: Seq<(Seq<char>, Value)>,
}

/// The first place at which one of `variants` has the name `name`; their
/// number, if none has.
pub open spec fn first_named(variants: Seq<(Seq<char>, Value)>, name: Seq<char>) -> int
    decreases variants.len(),
{
    if variants.len() == 0 {
        0
    } else if variants[0].0 == name {
        0
    } else {
        1 + first_named(variants.drop_first(), name)
    }
}

/// The place in front of which no value has the name, and at which one
/// has it, if the place is one of the list, is the first place of the name.
pub proof fn first_named_is(variants: Seq<(Seq<char>, Value)>, name: Seq<char>, at: int)
    requires
        0 <= at <= variants.len(),
        forall|k: int| 0 <= k < at ==> (#[trigger] variants[k]).0 != name,
        at < variants.len() ==> variants[at].0 == name,
    ensures
        first_named(variants, name) == at,
    decreases variants.len(),
{
    if variants.len() > 0 && at > 0 {
        assert(variants[0].0 != name);
        let rest = variants.drop_first();
        assert forall|k: int| 0 <= k < at - 1 implies (#[trigger] rest[k]).0 != name by {
            assert(variants[k + 1].0 != name);
        }
        first_named_is(rest, name, at - 1);
    }
}

/// The named values `variants` with `value` under the name `name`: in the
/// place of the first value of that name, or behind them all if there is
/// none of that name.
pub open spec fn with_named(variants: Seq<(Seq<char>, Value)>, name: Seq<char>, value: Value) -> Seq<
    (Seq<char>, Value),
> {
    let at = first_named(variants, name);
    if at < variants.len() {
        variants.update(at, (name, value))
    } else {
        variants.push((name, value))
    }
}

/// Named values, as contracts speak of them.
pub open spec fn variants_view(variants: Seq<(String, Value)>) -> Seq<(Seq<char>, Value)> {
    Seq::new(variants.len(), |i: int| (variants[i].0@, variants[i].1))
}

impl ModelView {
    /// The initial values that an experiment chooses from for the model:
    /// its named values in their order, or, where it has none, the one
    /// that it is handed when no other is chosen.
    pub open spec fn choices(self) -> Seq<Value> {
        if self.init_variants.len() == 0 {
            seq![self.default_init]
        } else {
            Seq::new(self.init_variants.len(), |i: int| self.init_variants[i].1)
        }
    }

    /// Whether a message can leave from `end`: an input port of the model
    /// itself, or an output port of a child.
    pub open spec fn can_send(self, end: crate::couplings::EndpointView) -> bool {
        match end.model {
            None => self.input_ports.contains(end.port),
            Some(child) => exists|i: int|
                0 <= i < self.child_names.len() && i < self.children.len() && self.child_names[i]
                    == child && (#[trigger] self.children[i]).output_ports.contains(end.port),
        }
    }

    /// Whether a message can arrive at `end`: an output port of the model
    /// itself, or an input port of a child.
    pub open spec fn can_receive(self, end: crate::couplings::EndpointView) -> bool {
        match end.model {
            None => self.output_ports.contains(end.port),
            Some(child) => exists|i: int|
                0 <= i < self.child_names.len() && i < self.children.len() && self.child_names[i]
                    == child && (#[trigger] self.children[i]).input_ports.contains(end.port),
        }
    }

    /// Whether the couplings of the model itself are in order: each leads
    /// from a port that exists to a port that exists, an external input
    /// coupling from the model to a child, an internal coupling from a
    /// child to a child, an external output coupling from a child to the
    /// model.
    pub open spec fn couplings_fit(self) -> bool {
        &&& forall|k: int|
            0 <= k < self.input_couplings.len() ==> {
                let edge = #[trigger] self.input_couplings[k];
                edge.from.model is None && edge.to.model is Some && self.can_send(edge.from)
                    && self.can_receive(edge.to)
            }
        &&& forall|k: int|
            0 <= k < self.internal_couplings.len() ==> {
                let edge = #[trigger] self.internal_couplings[k];
                edge.from.model is Some && edge.to.model is Some && self.can_send(edge.from)
                    && self.can_receive(edge.to)
            }
        &&& forall|k: int|
            0 <= k < self.output_couplings.len() ==> {
                let edge = #[trigger] self.output_couplings[k];
                edge.from.model is Some && edge.to.model is None && self.can_send(edge.from)
                    && self.can_receive(edge.to)
            }
    }

    /// Whether the description can be built: in the model and in every
    /// model below it, the names of the children rise, so that no two
    /// children share a name, and the couplings are in order.
    pub open spec fn valid(self) -> bool
        decreases self,
    {
        &&& self.child_names.len() == self.children.len()
        &&& names_rise(self.child_names)
        &&& self.couplings_fit()
        &&& forall|i: int| 0 <= i < self.children.len() ==> (#[trigger] self.children[i]).valid()
    }
}

impl View for Model {
    type V = ModelView;

    open spec fn view(&self) -> ModelView
        decreases self,
    {
        ModelView {
            input_ports: names_view(self.input_ports@),
            output_ports: names_view(self.output_ports@),
            child_names: self.child_names(),
            children: Model::views_of(self.submodels@, self.submodels@.len() as int),
            input_couplings: couplings_view(self.input_couplings@),
            internal_couplings: couplings_view(self.internal_couplings@),
            output_couplings: couplings_view(self.output_couplings@),
            observer_names: observer_names(self.observers@),
            default_init: self.default_init,
            init_variants: variants_view(self.init_variants@),
        }
    }
}

impl Model {
    /// The views of the first `n` of the children `children`.
    pub open spec fn views_of(children: Seq<Submodel>, n: int) -> Seq<ModelView>
        decreases children, n,
    {
        if n <= 0 || n > children.len() {
            Seq::empty()
        } else {
            Model::views_of(children, n - 1).push(children[n - 1].model@)
        }
    }

    /// `views_of` gives the views of the children, one for one.
    pub proof fn views_of_children(children: Seq<Submodel>, n: int)
        requires
            0 <= n <= children.len(),
        ensures
            Model::views_of(children, n).len() == n,
            forall|i: int| 0 <= i < n
                ==> #[trigger] Model::views_of(children, n)[i] == children[i].model@,
        decreases n,
    {
        reveal_with_fuel(Model::views_of, 2);
        if n > 0 {
            Model::views_of_children(children, n - 1);
        }
    }

    /// The names of the children, in their order.
    pub open spec fn child_names(&self) -> Seq<Seq<char>> {
        Seq::new(self.submodels@.len(), |i: int| self.submodels@[i].name@)
    }

    /// Whether the description is in order: the names of the children
    /// rise, and every child is in order.
    pub open spec fn wf(&self) -> bool
        decreases self,
    {
        &&& names_rise(self.child_names())
        &&& forall|i: int| 0 <= i < self.submodels@.len()
            ==> (#[trigger] self.submodels@[i]).model.wf()
    }

    /// What `wf` and the view say of a description, one level deep.
    pub proof fn unfold(self)
        ensures
            self.wf() == (names_rise(self.child_names()) && forall|i: int|
                0 <= i < self.submodels@.len() ==> (#[trigger] self.submodels@[i]).model.wf()),
            self@.input_ports == names_view(self.input_ports@),
            self@.output_ports == names_view(self.output_ports@),
            self@.child_names == self.child_names(),
            self@.children.len() == self.submodels@.len(),
            forall|i: int|
                0 <= i < self.submodels@.len() ==> #[trigger] self@.children[i]
                    == self.submodels@[i].model@,
            self@.input_couplings == couplings_view(self.input_couplings@),
            self@.internal_couplings == couplings_view(self.internal_couplings@),
            self@.output_couplings == couplings_view(self.output_couplings@),
            self@.observer_names == observer_names(self.observers@),
            self@.default_init == self.default_init,
            self@.init_variants == variants_view(self.init_variants@),
    {
        Model::views_of_children(self.submodels@, self.submodels@.len() as int);
    }

    /// The strings of `names`, as names of a model's own.
    fn owned_names(names: Vec<&str>) -> (owned: Vec<String>)
        ensures
            names_view(owned@) == Seq::new(names@.len(), |i: int| names@[i]@),
    {
        let mut owned: Vec<String> = Vec::new();
        let mut i: usize = 0;
        while i < names.len()
            invariant
                i <= names@.len(),
                owned@.len() == i,
                forall|k: int| 0 <= k < i ==> owned@[k]@ == names@[k]@,
            decreases names@.len() - i,
        {
            owned.push(names[i].to_owned());
            i += 1;
        }
        proof {
            assert(names_view(owned@) =~= Seq::new(names@.len(), |i: int| names@[i]@));
        }
        owned
    }

    /// The place among the children at which a child named `name` belongs.
    fn place_of_child(&self, name: &String) -> (at: usize)
        requires
            names_rise(self.child_names()),
        ensures
            at == place(self.child_names(), name@),
            at <= self.submodels@.len(),
    {
        let mut at: usize = 0;
        while at < self.submodels.len() && comes_before(&self.submodels[at].name, name)
            invariant
                at <= self.submodels@.len(),
                forall|i: int| 0 <= i < at ==> text_before(#[trigger] self.child_names()[i], name@),
            decreases self.submodels@.len() - at,
        {
            at += 1;
        }
        proof {
            let names = self.child_names();
            assert forall|i: int| at <= i < names.len() implies !text_before(
                #[trigger] names[i],
                name@,
            ) by {
                if i > at {
                    assert(text_before(names[at as int], names[i]));
                    if text_before(names[i], name@) {
                        crate::names::text_order_is_transitive(names[at as int], names[i], name@);
                    }
                }
            }
            place_is_the_only_one(names, name@, at as int);
        }
        at
    }

    /// Whether a child has the name `name`.
    pub fn has_submodel(&self, name: &str) -> (found: bool)
        ensures
            found == self.child_names().contains(name@),
    {
        let mut i: usize = 0;
        while i < self.submodels.len()
            invariant
                i <= self.submodels@.len(),
                forall|k: int| 0 <= k < i ==> self.submodels@[k].name@ != name@,
            decreases self.submodels@.len() - i,
        {
            if self.submodels[i].name == name.to_owned() {
                proof {
                    assert(self.child_names()[i as int] == name@);
                }
                return true;
            }
            i += 1;
        }
        proof {
            let names = self.child_names();
            assert forall|k: int| 0 <= k < names.len() implies names[k] != name@ by {
                assert(names[k] == self.submodels@[k].name@);
            }
        }
        false
    }

    /// A description that can be built is in order.
    pub proof fn valid_is_wf(self)
        requires
            self@.valid(),
        ensures
            self.wf(),
        decreases self,
    {
        self.unfold();
        assert forall|i: int| 0 <= i < self.submodels@.len() implies (
        #[trigger] self.submodels@[i]).model.wf() by {
            assert(self@.children[i].valid());
            self.submodels@[i].model.valid_is_wf();
        }
    }

    /// Replaces the behaviour: the model holds `dynamic`, and is
    /// otherwise as it was.
    pub fn with_dynamic<T: Dynamic + 'static>(self, dynamic: T) -> (model: Model)
        ensures
            model@ == self@,
            self.wf() ==> model.wf(),
            model.dynamic == ({
                let boxed: Box<T> = Box::new(dynamic);
                let held: Box<dyn Dynamic> = boxed;
                held
            }),
            model.observers == self.observers,
            model.submodels == self.submodels,
    {
        let mut model = self;
        let boxed: Box<T> = Box::new(dynamic);
        let held: Box<dyn Dynamic> = boxed;
        model.dynamic = held;
        model
    }
}

impl Default for Model {
    /// A model that waits forever, without ports, children or observers.
    fn default() -> (model: Model)
        ensures
            model.wf(),
            model@.input_ports.len() == 0,
            model@.output_ports.len() == 0,
            model@.child_names.len() == 0,
            model@.input_couplings.len() == 0,
            model@.internal_couplings.len() == 0,
            model@.output_couplings.len() == 0,
            model@.observer_names.len() == 0,
            model@.init_variants.len() == 0,
            model@.default_init == json_null(),
    {
        let model = Model {
            dynamic: Box::new(DefaultDynamic),
            input_ports: Vec::new(),
            output_ports: Vec::new(),
            submodels: Vec::new(),
            input_couplings: Vec::new(),
            internal_couplings: Vec::new(),
            output_couplings: Vec::new(),
            observers: Vec::new(),
            default_init: optional_integer_value(None),
            init_variants: Vec::new(),
        };
        proof {
            model.unfold();
        }
        model
    }
}

impl Model {
    /// Names the input ports. They can be named once: the description must
    /// not have any yet.
    pub fn with_input_ports(self, input_ports: Vec<&str>) -> (model: Model)
        requires
            self@.input_ports.len() == 0,
        ensures
            model@ == (ModelView {
                input_ports: Seq::new(input_ports@.len(), |i: int| input_ports@[i]@),
                ..self@
            }),
            self.wf() ==> model.wf(),
            model.dynamic == self.dynamic,
            model.observers == self.observers,
            model.submodels == self.submodels,
    {
        let mut model = self;
        model.input_ports = Model::owned_names(input_ports);
        proof {
            self.unfold();
            model.unfold();
        }
        model
    }

    /// Names the output ports. They can be named once: the description
    /// must not have any yet.
    pub fn with_output_ports(self, output_ports: Vec<&str>) -> (model: Model)
        requires
            self@.output_ports.len() == 0,
        ensures
            model@ == (ModelView {
                output_ports: Seq::new(output_ports@.len(), |i: int| output_ports@[i]@),
                ..self@
            }),
            self.wf() ==> model.wf(),
            model.dynamic == self.dynamic,
            model.observers == self.observers,
            model.submodels == self.submodels,
    {
        let mut model = self;
        model.output_ports = Model::owned_names(output_ports);
        proof {
            self.unfold();
            model.unfold();
        }
        model
    }

    /// Adds the child `submodel` under the name `submodel_name`, which no
    /// child may have yet. The child takes its place in the order of the
    /// names.
    pub fn with_submodel(self, submodel_name: &str, submodel: Model) -> (model: Model)
        requires
            self.wf(),
            submodel.wf(),
            !self@.child_names.contains(submodel_name@),
        ensures
            model.wf(),
            model@ == (ModelView {
                child_names: self@.child_names.insert(
                    place(self@.child_names, submodel_name@),
                    submodel_name@,
                ),
                children: self@.children.insert(place(self@.child_names, submodel_name@), submodel@),
                ..self@
            }),
            model.dynamic == self.dynamic,
            model.observers == self.observers,
            model.submodels@.len() == self.submodels@.len() + 1,
            model.submodels@[place(self@.child_names, submodel_name@)].model == submodel,
            forall|i: int|
                0 <= i < self.submodels@.len() ==> #[trigger] self.submodels@[i]
                    == model.submodels@[if i < place(self@.child_names, submodel_name@) {
                    i
                } else {
                    i + 1
                }],
    {
        let name = submodel_name.to_owned();
        proof {
            self.unfold();
            place_divides(self.child_names(), name@);
            rising_names_stay_rising(self.child_names(), name@);
        }
        let at = self.place_of_child(&name);
        let mut model = self;
        model.submodels.insert(at, Submodel { name, model: submodel });
        proof {
            model.unfold();
            assert(model.child_names() =~= self.child_names().insert(at as int, submodel_name@));
            assert(model@.children =~= self@.children.insert(at as int, submodel@));
            assert forall|i: int| 0 <= i < model.submodels@.len() implies (
            #[trigger] model.submodels@[i]).model.wf() by {
                if i < at {
                    assert(model.submodels@[i] == self.submodels@[i]);
                } else if i > at {
                    assert(model.submodels@[i] == self.submodels@[i - 1]);
                }
            }
        }
        model
    }

    /// A description with one more coupling at the end of `couplings`,
    /// unless it is among them already.
    fn with_coupling(couplings: &mut Vec<Coupling>, coupling: Coupling)
        ensures
            couplings_view(final(couplings)@) == if couplings_view(old(couplings)@).contains(
                coupling@,
            ) {
                couplings_view(old(couplings)@)
            } else {
                couplings_view(old(couplings)@).push(coupling@)
            },
    {
        if !holds_coupling(couplings, &coupling) {
            couplings.push(coupling);
            proof {
                assert(couplings_view(couplings@) =~= couplings_view(old(couplings)@).push(
                    coupling@,
                ));
            }
        }
    }

    /// Couples an input port of the model with an input port of a child:
    /// the coupling is given as the model's port, the child's name and the
    /// child's port. A coupling that is there already is not added again.
    pub fn with_input_coupling(self, input_coupling: (&str, &str, &str)) -> (model: Model)
        ensures
            model@ == (ModelView {
                input_couplings: if self@.input_couplings.contains(
                    crate::couplings::input_edge(
                        input_coupling.0@,
                        input_coupling.1@,
                        input_coupling.2@,
                    ),
                ) {
                    self@.input_couplings
                } else {
                    self@.input_couplings.push(
                        crate::couplings::input_edge(
                            input_coupling.0@,
                            input_coupling.1@,
                            input_coupling.2@,
                        ),
                    )
                },
                ..self@
            }),
            self.wf() ==> model.wf(),
            model.dynamic == self.dynamic,
            model.observers == self.observers,
            model.submodels == self.submodels,
    {
        let (self_input_port, submodel, submodel_input_port) = input_coupling;
        let coupling = Coupling {
            from: Endpoint::own(self_input_port),
            to: Endpoint::of_child(submodel, submodel_input_port),
        };
        let mut model = self;
        Model::with_coupling(&mut model.input_couplings, coupling);
        proof {
            self.unfold();
            model.unfold();
        }
        model
    }

    /// Couples an output port of one child with an input port of another:
    /// the coupling is given as the name and the port of the child that
    /// sends, then the name and the port of the child that receives. A
    /// coupling that is there already is not added again.
    pub fn with_internal_coupling(self, internal_coupling: (&str, &str, &str, &str)) -> (model: Model)
        ensures
            model@ == (ModelView {
                internal_couplings: if self@.internal_couplings.contains(
                    crate::couplings::internal_edge(
                        internal_coupling.0@,
                        internal_coupling.1@,
                        internal_coupling.2@,
                        internal_coupling.3@,
                    ),
                ) {
                    self@.internal_couplings
                } else {
                    self@.internal_couplings.push(
                        crate::couplings::internal_edge(
                            internal_coupling.0@,
                            internal_coupling.1@,
                            internal_coupling.2@,
                            internal_coupling.3@,
                        ),
                    )
                },
                ..self@
            }),
            self.wf() ==> model.wf(),
            model.dynamic == self.dynamic,
            model.observers == self.observers,
            model.submodels == self.submodels,
    {
        let (source_submodel, source_submodel_output_port, dest_submodel, dest_submodel_input_port) =
            internal_coupling;
        let coupling = Coupling {
            from: Endpoint::of_child(source_submodel, source_submodel_output_port),
            to: Endpoint::of_child(dest_submodel, dest_submodel_input_port),
        };
        let mut model = self;
        Model::with_coupling(&mut model.internal_couplings, coupling);
        proof {
            self.unfold();
            model.unfold();
        }
        model
    }

    /// Couples an output port of a child with an output port of the model:
    /// the coupling is given as the child's name, the child's port and the
    /// model's port. A coupling that is there already is not added again.
    pub fn with_output_coupling(self, output_coupling: (&str, &str, &str)) -> (model: Model)
        ensures
            model@ == (ModelView {
                output_couplings: if self@.output_couplings.contains(
                    crate::couplings::output_edge(
                        output_coupling.0@,
                        output_coupling.1@,
                        output_coupling.2@,
                    ),
                ) {
                    self@.output_couplings
                } else {
                    self@.output_couplings.push(
                        crate::couplings::output_edge(
                            output_coupling.0@,
                            output_coupling.1@,
                            output_coupling.2@,
                        ),
                    )
                },
                ..self@
            }),
            self.wf() ==> model.wf(),
            model.dynamic == self.dynamic,
            model.observers == self.observers,
            model.submodels == self.submodels,
    {
        let (submodel, submodel_output_port, self_output_port) = output_coupling;
        let coupling = Coupling {
            from: Endpoint::of_child(submodel, submodel_output_port),
            to: Endpoint::own(self_output_port),
        };
        let mut model = self;
        Model::with_coupling(&mut model.output_couplings, coupling);
        proof {
            self.unfold();
            model.unfold();
        }
        model
    }

    /// The observer `observer` under the name `name`, as a model holds it.
    fn named_observer<T: Observer + 'static>(name: String, observer: T) -> (named: NamedObserver)
        ensures
            named.name == name,
            named.observer == ({
                let boxed: Box<T> = Box::new(observer);
                let held: Box<dyn Observer> = boxed;
                held
            }),
    {
        let boxed: Box<T> = Box::new(observer);
        let held: Box<dyn Observer> = boxed;
        NamedObserver { name, observer: held }
    }

    /// The first place at which an observer has the name `name`, or the
    /// number of observers if none has.
    fn place_of_observer(&self, name: &String) -> (at: usize)
        ensures
            at <= self.observers@.len(),
            forall|k: int| 0 <= k < at ==> observer_names(self.observers@)[k] != name@,
            at < self.observers@.len() ==> observer_names(self.observers@)[at as int] == name@,
    {
        let mut at: usize = 0;
        while at < self.observers.len()
            invariant
                at <= self.observers@.len(),
                forall|k: int| 0 <= k < at ==> observer_names(self.observers@)[k] != name@,
            decreases self.observers@.len() - at,
        {
            if self.observers[at].name == *name {
                return at;
            }
            at += 1;
        }
        at
    }

    /// Gives the model the observer `observer` under the name
    /// `observer_name`. It comes behind the observers that are there,
    /// unless one of them has that name: then it takes the place of the
    /// first of that name. The other observers, the behaviour and the
    /// children stay as they are.
    pub fn with_observer<T: Observer + 'static>(self, observer_name: &str, observer: T) -> (model:
        Model)
        ensures
            model@ == (ModelView {
                observer_names: if self@.observer_names.contains(observer_name@) {
                    self@.observer_names
                } else {
                    self@.observer_names.push(observer_name@)
                },
                ..self@
            }),
            self.wf() ==> model.wf(),
            model.dynamic == self.dynamic,
            model.submodels == self.submodels,
            model.observers@[crate::names::first_place(self@.observer_names, observer_name@)].observer
                == ({
                let boxed: Box<T> = Box::new(observer);
                let held: Box<dyn Observer> = boxed;
                held
            }),
            forall|k: int|
                0 <= k < self.observers@.len() && k != crate::names::first_place(
                    self@.observer_names,
                    observer_name@,
                ) ==> #[trigger] model.observers@[k] == self.observers@[k],
    {
        let name = observer_name.to_owned();
        let at = self.place_of_observer(&name);
        proof {
            self.unfold();
            crate::names::first_place_is(observer_names(self.observers@), name@, at as int);
        }
        let ghost names = observer_names(self.observers@);
        let mut model = self;
        if at < model.observers.len() {
            model.observers.set(at, Model::named_observer(name, observer));
            proof {
                assert(names[at as int] == observer_name@);
                assert(observer_names(model.observers@) =~= names);
            }
        } else {
            model.observers.push(Model::named_observer(name, observer));
            proof {
                assert(!names.contains(observer_name@));
                assert(observer_names(model.observers@) =~= names.push(observer_name@));
            }
        }
        proof {
            self.unfold();
            model.unfold();
        }
        model
    }

    /// The first place at which an initial value has the name `name`, or
    /// the number of the named initial values if none has.
    fn place_of_variant(&self, name: &String) -> (at: usize)
        ensures
            at <= self.init_variants@.len(),
            forall|k: int| 0 <= k < at ==> self.init_variants@[k].0@ != name@,
            at < self.init_variants@.len() ==> self.init_variants@[at as int].0@ == name@,
    {
        let mut at: usize = 0;
        while at < self.init_variants.len()
            invariant
                at <= self.init_variants@.len(),
                forall|k: int| 0 <= k < at ==> self.init_variants@[k].0@ != name@,
            decreases self.init_variants@.len() - at,
        {
            if self.init_variants[at].0 == *name {
                return at;
            }
            at += 1;
        }
        at
    }

    /// Gives the model one more initial value for an experiment to choose
    /// from, under the name `name`. It comes behind the values that are
    /// there, unless one of them has that name: then it takes the place of
    /// that one.
    pub fn with_init_variant(self, name: &str, value: Value) -> (model: Model)
        ensures
            self.wf() ==> model.wf(),
            model@ == (ModelView {
                init_variants: with_named(self@.init_variants, name@, value),
                ..self@
            }),
            model.dynamic == self.dynamic,
            model.observers == self.observers,
            model.submodels == self.submodels,
    {
        let owned = name.to_owned();
        let at = self.place_of_variant(&owned);
        let ghost before = variants_view(self.init_variants@);
        let mut model = self;
        if at < model.init_variants.len() {
            model.init_variants.set(at, (owned, value));
            proof {
                assert(variants_view(model.init_variants@) =~= before.update(
                    at as int,
                    (name@, value),
                ));
            }
        } else {
            model.init_variants.push((owned, value));
            proof {
                assert(variants_view(model.init_variants@) =~= before.push((name@, value)));
            }
        }
        proof {
            self.unfold();
            model.unfold();
            first_named_is(before, name@, at as int);
        }
        model
    }

    /// Sets the initial value that the behaviour is handed when no other
    /// is chosen for a run.
    pub fn with_default_init(self, default_init: Value) -> (model: Model)
        ensures
            model@ == (ModelView { default_init, ..self@ }),
            self.wf() ==> model.wf(),
            model.dynamic == self.dynamic,
            model.observers == self.observers,
            model.submodels == self.submodels,
    {
        let mut model = self;
        model.default_init = default_init;
        proof {
            self.unfold();
            model.unfold();
        }
        model
    }
}

impl Model {
    /// Whether the names of the children rise.
    fn children_rise(&self) -> (rise: bool)
        ensures
            rise == names_rise(self.child_names()),
    {
        if self.submodels.len() < 2 {
            return true;
        }
        let mut i: usize = 1;
        while i < self.submodels.len()
            invariant
                1 <= i <= self.submodels@.len(),
                forall|a: int, b: int|
                    0 <= a < b < i ==> text_before(self.child_names()[a], self.child_names()[b]),
            decreases self.submodels@.len() - i,
        {
            if !comes_before(&self.submodels[i - 1].name, &self.submodels[i].name) {
                proof {
                    assert(!text_before(self.child_names()[i - 1], self.child_names()[i as int]));
                }
                return false;
            }
            proof {
                let names = self.child_names();
                assert forall|a: int, b: int| 0 <= a < b < i + 1 implies text_before(
                    names[a],
                    names[b],
                ) by {
                    if b == i && a < i - 1 {
                        assert(text_before(names[a], names[i - 1]));
                        crate::names::text_order_is_transitive(names[a], names[i - 1], names[b]);
                    }
                }
            }
            i += 1;
        }
        true
    }

    /// The place of the child named `name`, if there is one.
    fn find_child(&self, name: &String) -> (found: Option<usize>)
        ensures
            match found {
                Some(i) => i < self.submodels@.len() && self.child_names()[i as int] == name@,
                None => !self.child_names().contains(name@),
            },
    {
        let mut i: usize = 0;
        while i < self.submodels.len()
            invariant
                i <= self.submodels@.len(),
                forall|k: int| 0 <= k < i ==> self.child_names()[k] != name@,
            decreases self.submodels@.len() - i,
        {
            if self.submodels[i].name == *name {
                return Some(i);
            }
            i += 1;
        }
        None
    }

    /// Whether a message can leave from `end`, if `sends`, or arrive at it,
    /// if not.
    fn end_fits(&self, end: &Endpoint, sends: bool) -> (fits: bool)
        requires
            names_rise(self.child_names()),
        ensures
            fits == if sends {
                self@.can_send(end@)
            } else {
                self@.can_receive(end@)
            },
    {
        proof {
            self.unfold();
        }
        match &end.model {
            None => {
                if sends {
                    holds_name(&self.input_ports, &end.port)
                } else {
                    holds_name(&self.output_ports, &end.port)
                }
            },
            Some(child) => {
                match self.find_child(child) {
                    None => {
                        proof {
                            assert forall|i: int|
                                0 <= i < self@.child_names.len() implies self@.child_names[i]
                                != child@ by {
                                if self@.child_names[i] == child@ {
                                    assert(self.child_names().contains(child@));
                                }
                            }
                        }
                        false
                    },
                    Some(at) => {
                        let model = &self.submodels[at].model;
                        proof {
                            model.unfold();
                            assert(self@.children[at as int] == model@);
                            assert forall|i: int|
                                0 <= i < self@.child_names.len() && self@.child_names[i]
                                    == child@ implies i == at by {
                                if i < at {
                                    assert(text_before(
                                        self.child_names()[i],
                                        self.child_names()[at as int],
                                    ));
                                    crate::names::text_order_is_strict(child@);
                                } else if i > at {
                                    assert(text_before(
                                        self.child_names()[at as int],
                                        self.child_names()[i],
                                    ));
                                    crate::names::text_order_is_strict(child@);
                                }
                            }
                        }
                        if sends {
                            holds_name(&model.output_ports, &end.port)
                        } else {
                            holds_name(&model.input_ports, &end.port)
                        }
                    },
                }
            },
        }
    }

    /// Whether every coupling of `couplings` leads from a port that exists
    /// to a port that exists, starts at the model itself exactly if
    /// `from_self`, and ends at the model itself exactly if `to_self`.
    fn couplings_fit(&self, couplings: &Vec<Coupling>, from_self: bool, to_self: bool) -> (fit: bool)
        requires
            names_rise(self.child_names()),
        ensures
            fit == (forall|k: int|
                0 <= k < couplings@.len() ==> {
                    let edge = #[trigger] couplings_view(couplings@)[k];
                    edge.from.model is None == from_self && edge.to.model is None == to_self
                        && self@.can_send(edge.from) && self@.can_receive(edge.to)
                }),
    {
        let mut k: usize = 0;
        while k < couplings.len()
            invariant
                k <= couplings@.len(),
                names_rise(self.child_names()),
                forall|j: int|
                    0 <= j < k ==> {
                        let edge = #[trigger] couplings_view(couplings@)[j];
                        edge.from.model is None == from_self && edge.to.model is None == to_self
                            && self@.can_send(edge.from) && self@.can_receive(edge.to)
                    },
            decreases couplings@.len() - k,
        {
            let edge = &couplings[k];
            proof {
                assert(couplings_view(couplings@)[k as int] == edge@);
            }
            if edge.from.model.is_none() != from_self || edge.to.model.is_none() != to_self
                || !self.end_fits(&edge.from, true) || !self.end_fits(&edge.to, false) {
                return false;
            }
            k += 1;
        }
        true
    }

    /// Checks that a simulator can be built from the description: see
    /// `ModelView::valid`.
    pub fn check(&self) -> (checked: Result<(), ()>)
        ensures
            checked is Ok == self@.valid(),
        decreases self,
    {
        proof {
            self.unfold();
        }
        if !self.children_rise() {
            return Err(());
        }
        if !self.couplings_fit(&self.input_couplings, true, false) {
            return Err(());
        }
        if !self.couplings_fit(&self.internal_couplings, false, false) {
            return Err(());
        }
        if !self.couplings_fit(&self.output_couplings, false, true) {
            return Err(());
        }
        let mut i: usize = 0;
        while i < self.submodels.len()
            invariant
                i <= self.submodels@.len(),
                self@.children.len() == self.submodels@.len(),
                forall|j: int|
                    0 <= j < self.submodels@.len() ==> #[trigger] self@.children[j]
                        == self.submodels@[j].model@,
                forall|j: int| 0 <= j < i ==> (#[trigger] self@.children[j]).valid(),
            decreases self.submodels@.len() - i,
        {
            match self.submodels[i].model.check() {
                Ok(()) => {},
                Err(()) => {
                    proof {
                        assert(!self@.children[i as int].valid());
                    }
                    return Err(());
                },
            }
            i += 1;
        }
        Ok(())
    }
}

} // verus!
