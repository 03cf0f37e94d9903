//! What models hand to each other: messages, bags of messages, and the
//! mail that a coupled model gathers from its children.

use crate::json::{json_list, json_record, json_text, list_value, record_value, text_value};
use serde_json::Value;
use std::rc::Rc;
use vstd::prelude::*;

verus! {

/// The messages that one model emits or receives at one instant, in the
/// order in which they came.
pub type Bag = Vec<Msg>;

/// What the children of a coupled model have emitted at one instant: one
/// item for each child that was due, in the order of the children.
pub type Mail = Vec<MailItem>;

/// A value on a port.
#[derive(Debug, Clone)]
pub struct Msg {
    /// The port that the message leaves from or arrives at.
    pub port: String,
    /// The payload. Copies of a message share it.
    pub value: Rc<Value>,
}

/// A message as contracts speak of it: the characters of its port, and its
/// payload.
pub struct MsgView {
    pub port: Seq<char>,
    pub value: Value,
}

impl View for Msg {
    type V = MsgView;

    open spec fn view(&self) -> MsgView {
        MsgView { port: self.port@, value: *self.value }
    }
}

/// The output of one child of a coupled model.
#[derive(Debug, Clone)]
pub struct MailItem {
    /// The name of the child, as its parent knows it.
    pub model_name: String,
    /// What the child emitted.
    pub y_bag: Bag,
}

/// A mail item as contracts speak of it.
pub struct MailItemView {
    pub model_name: Seq<char>,
    pub y_bag: Seq<MsgView>,
}

impl View for MailItem {
    type V = MailItemView;

    open spec fn view(&self) -> MailItemView {
        MailItemView { model_name: self.model_name@, y_bag: bag_view(self.y_bag@) }
    }
}

/// The messages of a bag, each by its view.
pub open spec fn bag_view(bag: Seq<Msg>) -> Seq<MsgView> {
    Seq::new(bag.len(), |i: int| bag[i]@)
}

/// The items of a mail, each by its view.
pub open spec fn mail_view(mail: Seq<MailItem>) -> Seq<MailItemView> {
    Seq::new(mail.len(), |i: int| mail[i]@)
}

/// The JSON object that stands for a message: its port under `PORT`, its
/// payload under `VALUE`.
pub open spec fn msg_json(msg: MsgView) -> Value {
    json_record(seq![("PORT"@, json_text(msg.port)), ("VALUE"@, msg.value)])
}

/// The JSON array that stands for a bag: its messages in their order.
pub open spec fn bag_json(bag: Seq<MsgView>) -> Value {
    json_list(Seq::new(bag.len(), |i: int| msg_json(bag[i])))
}

/// The JSON object that stands for a mail item: the bag of the child,
/// under the child's name.
pub open spec fn mail_item_json(item: MailItemView) -> Value {
    json_record(seq![(item.model_name, bag_json(item.y_bag))])
}

/// Another handle on a shared payload. This is `Clone for Rc`: the new
/// handle points to the same value.
#[verifier::external_body]
pub(crate) fn share(value: &Rc<Value>) -> (shared: Rc<Value>)
    ensures
        shared == *value,
{
    value.clone()
}

impl Msg {
    /// A message that carries `value` on `port`.
    pub fn new(port: &str, value: Value) -> (msg: Msg)
        ensures
            msg@ == (MsgView { port: port@, value }),
    {
        Msg { port: port.to_owned(), value: Rc::new(value) }
    }

    /// The payload.
    pub fn value(&self) -> (value: &Value)
        ensures
            *value == self@.value,
    {
        &*self.value
    }

    /// The port.
    pub fn port(&self) -> (port: &str)
        ensures
            port@ == self@.port,
    {
        self.port.as_str()
    }

    /// A copy of the message on another port, sharing the payload.
    pub fn forwarded(&self, port: &String) -> (msg: Msg)
        ensures
            msg@ == (MsgView { port: port@, value: self@.value }),
    {
        Msg { port: port.clone(), value: share(&self.value) }
    }

    /// The JSON object that stands for the message.
    pub fn to_value(&self) -> (json: Value)
        ensures
            json == msg_json(self@),
    {
        let mut members: Vec<(String, Value)> = Vec::new();
        members.push(("PORT".to_owned(), text_value(self.port.clone())));
        members.push(("VALUE".to_owned(), self.value().clone()));
        proof {
            assert(crate::json::members_view(members@) =~= seq![
                ("PORT"@, json_text(self@.port)),
                ("VALUE"@, self@.value),
            ]);
        }
        record_value(members)
    }
}

/// The JSON array that stands for a bag.
pub fn bag_to_value(bag: &Bag) -> (json: Value)
    ensures
        json == bag_json(bag_view(bag@)),
{
    let mut items: Vec<Value> = Vec::new();
    let mut i: usize = 0;
    while i < bag.len()
        invariant
            i <= bag.len(),
            items@.len() == i,
            forall|k: int| 0 <= k < i ==> items@[k] == msg_json(bag@[k]@),
        decreases bag.len() - i,
    {
        items.push(bag[i].to_value());
        i += 1;
    }
    proof {
        let view = bag_view(bag@);
        assert(items@ =~= Seq::new(view.len(), |i: int| msg_json(view[i])));
    }
    list_value(items)
}

impl MailItem {
    /// The JSON object that stands for the item.
    pub fn to_value(&self) -> (json: Value)
        ensures
            json == mail_item_json(self@),
    {
        let mut members: Vec<(String, Value)> = Vec::new();
        members.push((self.model_name.clone(), bag_to_value(&self.y_bag)));
        proof {
            assert(crate::json::members_view(members@) =~= seq![
                (self@.model_name, bag_json(self@.y_bag)),
            ]);
        }
        record_value(members)
    }
}

/// Where a model puts the messages that it emits.
pub struct Outputs {
    pub bag: Bag,
}

impl Outputs {
    /// An empty collector.
    pub fn new() -> (outputs: Outputs)
        ensures
            outputs.bag@.len() == 0,
    {
        Outputs { bag: Vec::new() }
    }

    /// Emits `value` on `port`, after what was emitted before.
    pub fn put(&mut self, port: &str, value: Value)
        ensures
            bag_view(final(self).bag@) == bag_view(old(self).bag@).push(
                MsgView { port: port@, value },
            ),
    {
        self.bag.push(Msg::new(port, value));
        proof {
            assert(bag_view(self.bag@) =~= bag_view(old(self).bag@).push(
                MsgView { port: port@, value },
            ));
        }
    }
}

/// What an observer hands back when a simulation ends.
pub struct SimResult {
    pub tags: Vec<String>,
    pub result: Value,
}

/// The results of the observers of one model: the name of each observer
/// that gave one, and its result, in the order of the observers.
pub type ModelSimResults = Vec<(String, SimResult)>;

/// The results of a simulation: the full name of each model with a result,
/// and the results of its observers.
pub type SimResults = Vec<(String, ModelSimResults)>;

} // verus!
