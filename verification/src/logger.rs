//! The event log of a model: which record each step of a simulation
//! leaves, and how a record is put together from what an observer sees
//! before a transition and after it.
//!
//! Nothing here touches a file. A record is a JSON object, and `record_line`
//! gives the line that stands for it in a log.

use crate::containers::{
    bag_json, bag_view, mail_item_json, mail_view, Bag, Mail, MailItem, MailItemView, Msg, MsgView,
};
use crate::errors::ExdsdevsError;
use crate::json::{
    json_line, json_list, json_record, json_text, list_value, members_view, record_value,
    text_value, value_line,
};
use crate::time::Time;
use serde_json::Value;
use vstd::prelude::*;

verus! {

/// A message as the log keeps it: with a payload of its own.
#[derive(Clone)]
pub struct LogMsg {
    pub port: String,
    pub value: Value,
}

impl View for LogMsg {
    type V = MsgView;

    open spec fn view(&self) -> MsgView {
        MsgView { port: self.port@, value: self.value }
    }
}

/// A bag as the log keeps it.
pub type LogBag = Vec<LogMsg>;

/// The messages of a kept bag, each by its view.
pub open spec fn log_bag_view(bag: Seq<LogMsg>) -> Seq<MsgView> {
    Seq::new(bag.len(), |i: int| bag[i]@)
}

/// A mail item as the log keeps it.
#[derive(Clone)]
pub struct LogMailItem {
    pub model_name: String,
    pub y_bag: LogBag,
}

impl View for LogMailItem {
    type V = MailItemView;

    open spec fn view(&self) -> MailItemView {
        MailItemView { model_name: self.model_name@, y_bag: log_bag_view(self.y_bag@) }
    }
}

/// A mail as the log keeps it.
pub type LogMail = Vec<LogMailItem>;

/// The items of a kept mail, each by its view.
pub open spec fn log_mail_view(mail: Seq<LogMailItem>) -> Seq<MailItemView> {
    Seq::new(mail.len(), |i: int| mail[i]@)
}

/// The JSON array that stands for a mail: its items in their order.
pub open spec fn mail_json(mail: Seq<MailItemView>) -> Value {
    json_list(Seq::new(mail.len(), |i: int| mail_item_json(mail[i])))
}

impl LogMsg {
    /// The message `msg`, with a copy of its payload.
    pub fn from_msg(msg: &Msg) -> (kept: LogMsg)
        ensures
            kept@ == msg@,
    {
        LogMsg { port: msg.port.clone(), value: msg.value().clone() }
    }

    /// The JSON object that stands for the message, which gives its payload
    /// away.
    pub fn into_value(self) -> (json: Value)
        ensures
            json == crate::containers::msg_json(self@),
    {
        let mut members: Vec<(String, Value)> = Vec::new();
        members.push(("PORT".to_owned(), text_value(self.port)));
        members.push(("VALUE".to_owned(), self.value));
        proof {
            assert(members_view(members@) =~= seq![
                ("PORT"@, json_text(self@.port)),
                ("VALUE"@, self@.value),
            ]);
        }
        record_value(members)
    }
}

/// The bag `bag` as the log keeps it: the same messages in the same order.
pub fn log_bag_from_bag(bag: &Bag) -> (kept: LogBag)
    ensures
        log_bag_view(kept@) == bag_view(bag@),
{
    let mut kept: LogBag = Vec::new();
    let mut i: usize = 0;
    while i < bag.len()
        invariant
            i <= bag.len(),
            kept@.len() == i,
            forall|k: int| 0 <= k < i ==> kept@[k]@ == bag@[k]@,
        decreases bag.len() - i,
    {
        kept.push(LogMsg::from_msg(&bag[i]));
        i += 1;
    }
    proof {
        assert(log_bag_view(kept@) =~= bag_view(bag@));
    }
    kept
}

impl LogMailItem {
    /// The item `item`, with copies of its payloads.
    pub fn from_mail_item(item: &MailItem) -> (kept: LogMailItem)
        ensures
            kept@ == item@,
    {
        LogMailItem { model_name: item.model_name.clone(), y_bag: log_bag_from_bag(&item.y_bag) }
    }

    /// The JSON object that stands for the item.
    pub fn into_value(self) -> (json: Value)
        ensures
            json == mail_item_json(self@),
    {
        let ghost view = self@;
        let mut members: Vec<(String, Value)> = Vec::new();
        members.push((self.model_name, get_bag_val(self.y_bag)));
        proof {
            assert(members_view(members@) =~= seq![(view.model_name, bag_json(view.y_bag))]);
        }
        record_value(members)
    }
}

/// The mail `mail` as the log keeps it: the same items in the same order.
pub fn log_mail_from_mail(mail: &Mail) -> (kept: LogMail)
    ensures
        log_mail_view(kept@) == mail_view(mail@),
{
    let mut kept: LogMail = Vec::new();
    let mut i: usize = 0;
    while i < mail.len()
        invariant
            i <= mail.len(),
            kept@.len() == i,
            forall|k: int| 0 <= k < i ==> kept@[k]@ == mail@[k]@,
        decreases mail.len() - i,
    {
        kept.push(LogMailItem::from_mail_item(&mail[i]));
        i += 1;
    }
    proof {
        assert(log_mail_view(kept@) =~= mail_view(mail@));
    }
    kept
}

/// The JSON array that stands for a kept bag.
pub fn get_bag_val(bag: LogBag) -> (json: Value)
    ensures
        json == bag_json(log_bag_view(bag@)),
{
    let ghost view = log_bag_view(bag@);
    let mut items: Vec<Value> = Vec::new();
    for msg in iter: bag
        invariant
            iter.seq() == bag@,
            view == log_bag_view(bag@),
            items@.len() == iter.index(),
            forall|k: int| 0 <= k < items@.len()
                ==> items@[k] == crate::containers::msg_json(view[k]),
    {
        items.push(msg.into_value());
    }
    proof {
        assert(items@ =~= Seq::new(view.len(), |i: int| crate::containers::msg_json(view[i])));
    }
    list_value(items)
}

/// The JSON array that stands for a kept mail.
pub fn get_mail_val(mail: LogMail) -> (json: Value)
    ensures
        json == mail_json(log_mail_view(mail@)),
{
    let ghost view = log_mail_view(mail@);
    let mut items: Vec<Value> = Vec::new();
    for item in iter: mail
        invariant
            iter.seq() == mail@,
            view == log_mail_view(mail@),
            items@.len() == iter.index(),
            forall|k: int| 0 <= k < items@.len() ==> items@[k] == mail_item_json(view[k]),
    {
        items.push(item.into_value());
    }
    proof {
        assert(items@ =~= Seq::new(view.len(), |i: int| mail_item_json(view[i])));
    }
    list_value(items)
}

/// What an observer of a model has seen. The variants whose names begin
/// with `Pre` hold what is known before a transition; they leave no record.
#[derive(Clone)]
pub enum LogEvent {
    /// Nothing has been seen, or nothing is pending.
    Nothing,
    /// The model was initialized.
    Init { init_time: Time, init_value: Value, init_state: Value, t_next: Time },
    /// The model emitted its output.
    Outputs { sim_time: Time, log_bag: LogBag, t_next: Time },
    /// An internal transition is about to begin.
    PreInternalTransition { sim_time: Time, from_state: Value },
    /// An internal transition has ended.
    InternalTransition { sim_time: Time, from_state: Value, to_state: Value, t_next: Time },
    /// A transition on the mail of the children is about to begin.
    PreExternalMailTransition { sim_time: Time, from_state: Value, log_mail: LogMail, elapsed: Time },
    /// A transition on the mail of the children has ended.
    ExternalMailTransition {
        sim_time: Time,
        from_state: Value,
        to_state: Value,
        t_next: Time,
        log_mail: LogMail,
        elapsed: Time,
    },
    /// An external transition is about to begin.
    PreExternalTransition { sim_time: Time, from_state: Value, log_x_bag: LogBag, elapsed: Time },
    /// An external transition has ended.
    ExternalTransition {
        sim_time: Time,
        from_state: Value,
        to_state: Value,
        t_next: Time,
        log_x_bag: LogBag,
        elapsed: Time,
    },
    /// A confluent transition is about to begin.
    PreConfluentTransition { sim_time: Time, from_state: Value, log_x_bag: LogBag },
    /// A confluent transition has ended.
    ConfluentTransition {
        sim_time: Time,
        from_state: Value,
        to_state: Value,
        t_next: Time,
        log_x_bag: LogBag,
    },
    /// The children of the model have made their transitions.
    AfterSubmodelsTransition { sim_time: Time, from_state: Value, to_state: Value, t_next: Time },
}

/// A key and its value, as a member of a record.
fn member(key: &str, value: Value) -> (m: (String, Value))
    ensures
        m.0@ == key@,
        m.1 == value,
{
    (key.to_owned(), value)
}

impl LogEvent {
    /// The record that an event leaves in the log, if it leaves one. Every
    /// record holds the time of the event under `TIME` and its kind under
    /// `EVENT`.
    pub open spec fn record(self) -> Option<Value> {
        match self {
            LogEvent::Init { init_time, init_value, init_state, t_next } => Some(
                json_record(
                    seq![
                        ("TIME"@, init_time.json()),
                        ("EVENT"@, json_text("INIT"@)),
                        ("INIT_VALUE"@, init_value),
                        ("INIT_STATE"@, init_state),
                        ("TIME_NEXT"@, t_next.json()),
                    ],
                ),
            ),
            LogEvent::Outputs { sim_time, log_bag, t_next } => Some(
                json_record(
                    seq![
                        ("TIME"@, sim_time.json()),
                        ("EVENT"@, json_text("OUTPUTS"@)),
                        ("BAG"@, bag_json(log_bag_view(log_bag@))),
                        ("TIME_NEXT"@, t_next.json()),
                    ],
                ),
            ),
            LogEvent::InternalTransition { sim_time, from_state, to_state, t_next } => Some(
                json_record(
                    seq![
                        ("TIME"@, sim_time.json()),
                        ("EVENT"@, json_text("INTERNAL_TRANSITION"@)),
                        ("FROM"@, from_state),
                        ("TO"@, to_state),
                        ("TIME_NEXT"@, t_next.json()),
                    ],
                ),
            ),
            LogEvent::ExternalMailTransition {
                sim_time,
                from_state,
                to_state,
                t_next,
                log_mail,
                elapsed,
            } => Some(
                json_record(
                    seq![
                        ("TIME"@, sim_time.json()),
                        ("EVENT"@, json_text("EXTERNAL_MAIL_TRANSITION"@)),
                        ("FROM"@, from_state),
                        ("TO"@, to_state),
                        ("TIME_NEXT"@, t_next.json()),
                        ("MAIL"@, mail_json(log_mail_view(log_mail@))),
                        ("ELAPSED"@, elapsed.json()),
                    ],
                ),
            ),
            LogEvent::ExternalTransition {
                sim_time,
                from_state,
                to_state,
                t_next,
                log_x_bag,
                elapsed,
            } => Some(
                json_record(
                    seq![
                        ("TIME"@, sim_time.json()),
                        ("EVENT"@, json_text("EXTERNAL_TRANSITION"@)),
                        ("FROM"@, from_state),
                        ("TO"@, to_state),
                        ("TIME_NEXT"@, t_next.json()),
                        ("X_BAG"@, bag_json(log_bag_view(log_x_bag@))),
                        ("ELAPSED"@, elapsed.json()),
                    ],
                ),
            ),
            LogEvent::ConfluentTransition { sim_time, from_state, to_state, t_next, log_x_bag } => Some(
                json_record(
                    seq![
                        ("TIME"@, sim_time.json()),
                        ("EVENT"@, json_text("CONFLUENT_TRANSITION"@)),
                        ("FROM"@, from_state),
                        ("TO"@, to_state),
                        ("X_BAG"@, bag_json(log_bag_view(log_x_bag@))),
                        ("TIME_NEXT"@, t_next.json()),
                    ],
                ),
            ),
            LogEvent::AfterSubmodelsTransition { sim_time, from_state, to_state, t_next } => Some(
                json_record(
                    seq![
                        ("TIME"@, sim_time.json()),
                        ("EVENT"@, json_text("AFTER_SUBMODELS_TRANSITION"@)),
                        ("FROM"@, from_state),
                        ("TO"@, to_state),
                        ("TIME_NEXT"@, t_next.json()),
                    ],
                ),
            ),
            _ => None,
        }
    }

    /// The record that the event leaves in the log, if it leaves one.
    pub fn into_record(self) -> (record: Option<Value>)
        ensures
            record == self.record(),
    {
        match self {
            LogEvent::Init { init_time, init_value, init_state, t_next } => {
                let mut members: Vec<(String, Value)> = Vec::new();
                members.push(member("TIME", init_time.to_value()));
                members.push(member("EVENT", text_value("INIT".to_owned())));
                members.push(member("INIT_VALUE", init_value));
                members.push(member("INIT_STATE", init_state));
                members.push(member("TIME_NEXT", t_next.to_value()));
                proof {
                    assert(members_view(members@) =~= seq![
                        ("TIME"@, init_time.json()),
                        ("EVENT"@, json_text("INIT"@)),
                        ("INIT_VALUE"@, init_value),
                        ("INIT_STATE"@, init_state),
                        ("TIME_NEXT"@, t_next.json()),
                    ]);
                }
                Some(record_value(members))
            },
            LogEvent::Outputs { sim_time, log_bag, t_next } => {
                let ghost bag = log_bag_view(log_bag@);
                let mut members: Vec<(String, Value)> = Vec::new();
                members.push(member("TIME", sim_time.to_value()));
                members.push(member("EVENT", text_value("OUTPUTS".to_owned())));
                members.push(member("BAG", get_bag_val(log_bag)));
                members.push(member("TIME_NEXT", t_next.to_value()));
                proof {
                    assert(members_view(members@) =~= seq![
                        ("TIME"@, sim_time.json()),
                        ("EVENT"@, json_text("OUTPUTS"@)),
                        ("BAG"@, bag_json(bag)),
                        ("TIME_NEXT"@, t_next.json()),
                    ]);
                }
                Some(record_value(members))
            },
            LogEvent::InternalTransition { sim_time, from_state, to_state, t_next } => {
                let mut members: Vec<(String, Value)> = Vec::new();
                members.push(member("TIME", sim_time.to_value()));
                members.push(member("EVENT", text_value("INTERNAL_TRANSITION".to_owned())));
                members.push(member("FROM", from_state));
                members.push(member("TO", to_state));
                members.push(member("TIME_NEXT", t_next.to_value()));
                proof {
                    assert(members_view(members@) =~= seq![
                        ("TIME"@, sim_time.json()),
                        ("EVENT"@, json_text("INTERNAL_TRANSITION"@)),
                        ("FROM"@, from_state),
                        ("TO"@, to_state),
                        ("TIME_NEXT"@, t_next.json()),
                    ]);
                }
                Some(record_value(members))
            },
            LogEvent::ExternalMailTransition {
                sim_time,
                from_state,
                to_state,
                t_next,
                log_mail,
                elapsed,
            } => {
                let ghost mail = log_mail_view(log_mail@);
                let mut members: Vec<(String, Value)> = Vec::new();
                members.push(member("TIME", sim_time.to_value()));
                members.push(member("EVENT", text_value("EXTERNAL_MAIL_TRANSITION".to_owned())));
                members.push(member("FROM", from_state));
                members.push(member("TO", to_state));
                members.push(member("TIME_NEXT", t_next.to_value()));
                members.push(member("MAIL", get_mail_val(log_mail)));
                members.push(member("ELAPSED", elapsed.to_value()));
                proof {
                    assert(members_view(members@) =~= seq![
                        ("TIME"@, sim_time.json()),
                        ("EVENT"@, json_text("EXTERNAL_MAIL_TRANSITION"@)),
                        ("FROM"@, from_state),
                        ("TO"@, to_state),
                        ("TIME_NEXT"@, t_next.json()),
                        ("MAIL"@, mail_json(mail)),
                        ("ELAPSED"@, elapsed.json()),
                    ]);
                }
                Some(record_value(members))
            },
            LogEvent::ExternalTransition {
                sim_time,
                from_state,
                to_state,
                t_next,
                log_x_bag,
                elapsed,
            } => {
                let ghost bag = log_bag_view(log_x_bag@);
                let mut members: Vec<(String, Value)> = Vec::new();
                members.push(member("TIME", sim_time.to_value()));
                members.push(member("EVENT", text_value("EXTERNAL_TRANSITION".to_owned())));
                members.push(member("FROM", from_state));
                members.push(member("TO", to_state));
                members.push(member("TIME_NEXT", t_next.to_value()));
                members.push(member("X_BAG", get_bag_val(log_x_bag)));
                members.push(member("ELAPSED", elapsed.to_value()));
                proof {
                    assert(members_view(members@) =~= seq![
                        ("TIME"@, sim_time.json()),
                        ("EVENT"@, json_text("EXTERNAL_TRANSITION"@)),
                        ("FROM"@, from_state),
                        ("TO"@, to_state),
                        ("TIME_NEXT"@, t_next.json()),
                        ("X_BAG"@, bag_json(bag)),
                        ("ELAPSED"@, elapsed.json()),
                    ]);
                }
                Some(record_value(members))
            },
            LogEvent::ConfluentTransition { sim_time, from_state, to_state, t_next, log_x_bag } => {
                let ghost bag = log_bag_view(log_x_bag@);
                let mut members: Vec<(String, Value)> = Vec::new();
                members.push(member("TIME", sim_time.to_value()));
                members.push(member("EVENT", text_value("CONFLUENT_TRANSITION".to_owned())));
                members.push(member("FROM", from_state));
                members.push(member("TO", to_state));
                members.push(member("X_BAG", get_bag_val(log_x_bag)));
                members.push(member("TIME_NEXT", t_next.to_value()));
                proof {
                    assert(members_view(members@) =~= seq![
                        ("TIME"@, sim_time.json()),
                        ("EVENT"@, json_text("CONFLUENT_TRANSITION"@)),
                        ("FROM"@, from_state),
                        ("TO"@, to_state),
                        ("X_BAG"@, bag_json(bag)),
                        ("TIME_NEXT"@, t_next.json()),
                    ]);
                }
                Some(record_value(members))
            },
            LogEvent::AfterSubmodelsTransition { sim_time, from_state, to_state, t_next } => {
                let mut members: Vec<(String, Value)> = Vec::new();
                members.push(member("TIME", sim_time.to_value()));
                members.push(member("EVENT", text_value("AFTER_SUBMODELS_TRANSITION".to_owned())));
                members.push(member("FROM", from_state));
                members.push(member("TO", to_state));
                members.push(member("TIME_NEXT", t_next.to_value()));
                proof {
                    assert(members_view(members@) =~= seq![
                        ("TIME"@, sim_time.json()),
                        ("EVENT"@, json_text("AFTER_SUBMODELS_TRANSITION"@)),
                        ("FROM"@, from_state),
                        ("TO"@, to_state),
                        ("TIME_NEXT"@, t_next.json()),
                    ]);
                }
                Some(record_value(members))
            },
            _ => None,
        }
    }
}

/// The line that stands for a record in a log: its compact JSON text and
/// a line feed. The error is `ErrorParseJson`, exactly if the record
/// cannot be written as text.
pub fn record_line(record: &Value) -> (line: Result<String, ExdsdevsError>)
    ensures
        match line {
            Ok(text) => text@.len() > 0 && json_line(*record) == Some(text@.drop_last())
                && text@.last() == '\n',
            Err(error) => json_line(*record) is None && error is ErrorParseJson,
        },
{
    match value_line(record) {
        Ok(text) => {
            proof {
                reveal_strlit("\n");
                assert("\n"@ =~= seq!['\n']);
                assert((text@ + seq!['\n']).drop_last() =~= text@);
            }
            Ok(text.concat("\n"))
        },
        Err(error) => Err(ExdsdevsError::from(error)),
    }
}

/// The part of a logging observer that decides what is written: it keeps
/// what was seen before a transition until the transition has ended,
/// remembers the state in which the model was seen last, and hands out the
/// record of each event that leaves one.
#[derive(Clone)]
pub struct Logger {
    /// What was seen before the transition that is under way, or `Nothing`.
    pub log_event: LogEvent,
    /// The state in which the model was seen last, when it was initialized
    /// or a transition ended; `null` before that.
    pub last_state: Value,
}

impl Logger {
    /// A logger with nothing pending.
    pub fn new() -> (logger: Logger)
        ensures
            logger.log_event is Nothing,
            logger.last_state == crate::json::json_null(),
    {
        Logger {
            log_event: LogEvent::Nothing,
            last_state: crate::json::optional_integer_value(None),
        }
    }

    /// Takes what is pending and leaves `Nothing`.
    fn take_pending(&mut self) -> (pending: LogEvent)
        ensures
            pending == old(self).log_event,
            final(self).log_event is Nothing,
            final(self).last_state == old(self).last_state,
    {
        let mut pending = LogEvent::Nothing;
        std::mem::swap(&mut self.log_event, &mut pending);
        pending
    }

    /// The model was initialized in the state `init_state`: the record of
    /// that.
    pub fn on_init(&mut self, init_time: Time, init_value: Value, init_state: Value, t_next: Time) -> (record:
        Option<Value>)
        ensures
            record == (LogEvent::Init { init_time, init_value, init_state, t_next }).record(),
            final(self).log_event == old(self).log_event,
            final(self).last_state == init_state,
    {
        self.last_state = init_state.clone();
        (LogEvent::Init { init_time, init_value, init_state, t_next }).into_record()
    }

    /// The model emitted `bag`, and the next event of its tree is due at
    /// `t_next`: the record of that.
    pub fn on_outputs(&self, sim_time: Time, bag: &Bag, t_next: Time) -> (record: Option<Value>)
        ensures
            record == Some(
                json_record(
                    seq![
                        ("TIME"@, sim_time.json()),
                        ("EVENT"@, json_text("OUTPUTS"@)),
                        ("BAG"@, bag_json(bag_view(bag@))),
                        ("TIME_NEXT"@, t_next.json()),
                    ],
                ),
            ),
    {
        (LogEvent::Outputs { sim_time, log_bag: log_bag_from_bag(bag), t_next }).into_record()
    }

    /// An internal transition begins in the state `from_state`.
    pub fn before_internal_transition(&mut self, sim_time: Time, from_state: Value)
        ensures
            final(self).last_state == old(self).last_state,
            final(self).log_event == (LogEvent::PreInternalTransition { sim_time, from_state }),
    {
        self.log_event = LogEvent::PreInternalTransition { sim_time, from_state };
    }

    /// An internal transition has ended in the state `to_state`: its record,
    /// if its beginning was seen. Nothing is pending afterwards.
    pub fn after_internal_transition(&mut self, to_state: Value, t_next: Time) -> (record: Option<
        Value,
    >)
        ensures
            final(self).log_event is Nothing,
            final(self).last_state == to_state,
            record == match old(self).log_event {
                LogEvent::PreInternalTransition { sim_time, from_state } => (
                LogEvent::InternalTransition { sim_time, from_state, to_state, t_next }).record(),
                _ => None,
            },
    {
        self.last_state = to_state.clone();
        match self.take_pending() {
            LogEvent::PreInternalTransition { sim_time, from_state } => (
            LogEvent::InternalTransition { sim_time, from_state, to_state, t_next }).into_record(),
            _ => None,
        }
    }

    /// An external transition on the input `x_bag` begins in the state
    /// `from_state`.
    pub fn before_external_transition(
        &mut self,
        sim_time: Time,
        from_state: Value,
        x_bag: &Bag,
        elapsed: Time,
    )
        ensures
            final(self).last_state == old(self).last_state,
            final(self).log_event matches LogEvent::PreExternalTransition {
                sim_time: t,
                from_state: s,
                log_x_bag,
                elapsed: e,
            } && t == sim_time && s == from_state && e == elapsed && log_bag_view(log_x_bag@)
                == bag_view(x_bag@),
    {
        self.log_event =
        LogEvent::PreExternalTransition {
            sim_time,
            from_state,
            log_x_bag: log_bag_from_bag(x_bag),
            elapsed,
        };
    }

    /// An external transition has ended in the state `to_state`: its record,
    /// if its beginning was seen. Nothing is pending afterwards.
    pub fn after_external_transition(&mut self, to_state: Value, t_next: Time) -> (record: Option<
        Value,
    >)
        ensures
            final(self).log_event is Nothing,
            final(self).last_state == to_state,
            record == match old(self).log_event {
                LogEvent::PreExternalTransition { sim_time, from_state, log_x_bag, elapsed } => (
                LogEvent::ExternalTransition {
                    sim_time,
                    from_state,
                    to_state,
                    t_next,
                    log_x_bag,
                    elapsed,
                }).record(),
                _ => None,
            },
    {
        self.last_state = to_state.clone();
        match self.take_pending() {
            LogEvent::PreExternalTransition { sim_time, from_state, log_x_bag, elapsed } => (
            LogEvent::ExternalTransition {
                sim_time,
                from_state,
                to_state,
                t_next,
                log_x_bag,
                elapsed,
            }).into_record(),
            _ => None,
        }
    }

    /// A transition on the mail `mail` begins in the state `from_state`.
    pub fn before_external_mail_transition(
        &mut self,
        sim_time: Time,
        from_state: Value,
        mail: &Mail,
        elapsed: Time,
    )
        ensures
            final(self).last_state == old(self).last_state,
            final(self).log_event matches LogEvent::PreExternalMailTransition {
                sim_time: t,
                from_state: s,
                log_mail,
                elapsed: e,
            } && t == sim_time && s == from_state && e == elapsed && log_mail_view(log_mail@)
                == mail_view(mail@),
    {
        self.log_event =
        LogEvent::PreExternalMailTransition {
            sim_time,
            from_state,
            log_mail: log_mail_from_mail(mail),
            elapsed,
        };
    }

    /// A transition on the mail has ended in the state `to_state`: its
    /// record, if its beginning was seen. Nothing is pending afterwards.
    pub fn after_external_mail_transition(&mut self, to_state: Value, t_next: Time) -> (record:
        Option<Value>)
        ensures
            final(self).log_event is Nothing,
            final(self).last_state == to_state,
            record == match old(self).log_event {
                LogEvent::PreExternalMailTransition { sim_time, from_state, log_mail, elapsed } => (
                LogEvent::ExternalMailTransition {
                    sim_time,
                    from_state,
                    to_state,
                    t_next,
                    log_mail,
                    elapsed,
                }).record(),
                _ => None,
            },
    {
        self.last_state = to_state.clone();
        match self.take_pending() {
            LogEvent::PreExternalMailTransition { sim_time, from_state, log_mail, elapsed } => (
            LogEvent::ExternalMailTransition {
                sim_time,
                from_state,
                to_state,
                t_next,
                log_mail,
                elapsed,
            }).into_record(),
            _ => None,
        }
    }

    /// A confluent transition on the input `x_bag` begins in the state
    /// `from_state`.
    pub fn before_confluent_transition(&mut self, sim_time: Time, from_state: Value, x_bag: &Bag)
        ensures
            final(self).last_state == old(self).last_state,
            final(self).log_event matches LogEvent::PreConfluentTransition {
                sim_time: t,
                from_state: s,
                log_x_bag,
            } && t == sim_time && s == from_state && log_bag_view(log_x_bag@) == bag_view(x_bag@),
    {
        self.log_event =
        LogEvent::PreConfluentTransition {
            sim_time,
            from_state,
            log_x_bag: log_bag_from_bag(x_bag),
        };
    }

    /// A confluent transition has ended in the state `to_state`: its
    /// record, if its beginning was seen. Nothing is pending afterwards.
    pub fn after_confluent_transition(&mut self, to_state: Value, t_next: Time) -> (record: Option<
        Value,
    >)
        ensures
            final(self).log_event is Nothing,
            final(self).last_state == to_state,
            record == match old(self).log_event {
                LogEvent::PreConfluentTransition { sim_time, from_state, log_x_bag } => (
                LogEvent::ConfluentTransition {
                    sim_time,
                    from_state,
                    to_state,
                    t_next,
                    log_x_bag,
                }).record(),
                _ => None,
            },
    {
        self.last_state = to_state.clone();
        match self.take_pending() {
            LogEvent::PreConfluentTransition { sim_time, from_state, log_x_bag } => (
            LogEvent::ConfluentTransition {
                sim_time,
                from_state,
                to_state,
                t_next,
                log_x_bag,
            }).into_record(),
            _ => None,
        }
    }

    /// The children of the model have made their transitions, and the
    /// model is in the state `state`: the record of that, from the state
    /// in which the model was seen last to `state`.
    pub fn after_submodels_transition(&mut self, state: Value, sim_time: Time, t_next: Time) -> (record:
        Option<Value>)
        ensures
            record == (LogEvent::AfterSubmodelsTransition {
                sim_time,
                from_state: old(self).last_state,
                to_state: state,
                t_next,
            }).record(),
            final(self).log_event == old(self).log_event,
            final(self).last_state == state,
    {
        let mut from_state = state.clone();
        std::mem::swap(&mut self.last_state, &mut from_state);
        (LogEvent::AfterSubmodelsTransition { sim_time, from_state, to_state: state, t_next }).into_record()
    }
}

} // verus!
