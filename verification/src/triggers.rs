//! Event triggers and their condition language.
//!
//! A trigger belongs to an agent, carries a typed configuration and a list
//! of conditions, and on a matching event materializes a task from its
//! template, with the event's fields taking precedence over the template's.

use vstd::prelude::*;

verus! {

use crate::external::{regex_match_of, regex_valid};
use crate::payload::Payload;
use crate::strutil::{contains_seq, ends_with_seq, starts_with_seq};
use vstd::string::StringExecFns;

/// The kinds of stimulus a trigger listens to.
#[derive(Clone, Copy, Debug, PartialEq, Eq, Structural)]
pub enum TriggerType {
    /// A file appeared or changed.
    FileSystem,
    /// A new email matched the criteria.
    Email,
    /// Schedule-based; the due-time engine handles these.
    Time,
    /// An external HTTP event.
    Webhook,
    /// User-initiated.
    Manual,
}

impl TriggerType {
    /// The snake-case name of the trigger type.
    pub fn label(&self) -> (r: String)
        ensures
            self == TriggerType::FileSystem ==> r@ == "file_system"@,
            self == TriggerType::Email ==> r@ == "email"@,
            self == TriggerType::Time ==> r@ == "time"@,
            self == TriggerType::Webhook ==> r@ == "webhook"@,
            self == TriggerType::Manual ==> r@ == "manual"@,
    {
        match self {
            TriggerType::FileSystem => String::from_str("file_system"),
            TriggerType::Email => String::from_str("email"),
            TriggerType::Time => String::from_str("time"),
            TriggerType::Webhook => String::from_str("webhook"),
            TriggerType::Manual => String::from_str("manual"),
        }
    }
}

/// Watch a path for file events.
#[derive(Debug, Clone)]
pub struct FileSystemTriggerConfig {
    /// Directory or file to watch.
    pub path: String,
    /// Glob patterns the file name must match.
    pub patterns: Vec<String>,
    /// Which events to report: create, modify, delete.
    pub events: Vec<String>,
    /// Watch subdirectories too.
    pub recursive: bool,
}

/// Watch a mailbox for matching mail.
#[derive(Debug, Clone)]
pub struct EmailTriggerConfig {
    /// Only senders containing this.
    pub from_contains: Option<String>,
    /// Only subjects containing this.
    pub subject_contains: Option<String>,
    /// Only mail with (or without) attachments.
    pub has_attachment: Option<bool>,
    /// Mailbox labels to watch.
    pub labels: Vec<String>,
    /// How often to poll, in seconds.
    pub poll_interval_seconds: u32,
}

/// Accept external HTTP calls.
#[derive(Debug, Clone)]
pub struct WebhookTriggerConfig {
    /// The webhook URL path.
    pub endpoint: String,
    /// Shared secret that authenticates the inbound call.
    pub secret: Option<String>,
    /// Accepted HTTP method.
    pub method: String,
}

/// A trigger's configuration, keyed by its type.
#[derive(Debug, Clone)]
pub enum TriggerConfig {
    FileSystem(FileSystemTriggerConfig),
    Email(EmailTriggerConfig),
    Webhook(WebhookTriggerConfig),
    Time,
    Manual,
}

/// The configuration variant fits the trigger type.
pub open spec fn config_fits(t: TriggerType, c: TriggerConfig) -> bool {
    match c {
        TriggerConfig::FileSystem(_) => t == TriggerType::FileSystem,
        TriggerConfig::Email(_) => t == TriggerType::Email,
        TriggerConfig::Webhook(_) => t == TriggerType::Webhook,
        TriggerConfig::Time => t == TriggerType::Time,
        TriggerConfig::Manual => t == TriggerType::Manual,
    }
}

/// Executable twin of [`config_fits`].
pub fn config_fits_exec(t: &TriggerType, c: &TriggerConfig) -> (r: bool)
    ensures
        r == config_fits(*t, *c),
{
    match c {
        TriggerConfig::FileSystem(_) => matches!(t, TriggerType::FileSystem),
        TriggerConfig::Email(_) => matches!(t, TriggerType::Email),
        TriggerConfig::Webhook(_) => matches!(t, TriggerType::Webhook),
        TriggerConfig::Time => matches!(t, TriggerType::Time),
        TriggerConfig::Manual => matches!(t, TriggerType::Manual),
    }
}

/// One condition an event field must satisfy.
#[derive(Debug, Clone)]
pub struct TriggerCondition {
    /// The event field to check.
    pub field: String,
    /// One of `equals`, `not_equals`, `contains`, `not_contains`,
    /// `starts_with`, `ends_with`, `regex`.
    pub operator: String,
    /// The value to compare against.
    pub value: String,
}

impl TriggerCondition {
    /// What the condition says of an actual value.  An unknown operator
    /// makes the condition false, never an error; an invalid regular
    /// expression likewise.
    pub open spec fn spec_eval(&self, actual: Seq<char>) -> bool {
        if self.operator@ == "equals"@ {
            actual == self.value@
        } else if self.operator@ == "contains"@ {
            contains_seq(actual, self.value@)
        } else if self.operator@ == "starts_with"@ {
            starts_with_seq(actual, self.value@)
        } else if self.operator@ == "ends_with"@ {
            ends_with_seq(actual, self.value@)
        } else if self.operator@ == "not_equals"@ {
            actual != self.value@
        } else if self.operator@ == "not_contains"@ {
            !contains_seq(actual, self.value@)
        } else if self.operator@ == "regex"@ {
            regex_valid(self.value@) && regex_match_of(self.value@, actual)
        } else {
            false
        }
    }

    /// Evaluates the condition against an actual value.
    pub fn evaluate(&self, actual_value: &str) -> (r: bool)
        ensures
            r == self.spec_eval(actual_value@),
    {
        let op = self.operator.as_str();
        if crate::strutil::str_eq(op, "equals") {
            crate::strutil::str_eq(actual_value, self.value.as_str())
        } else if crate::strutil::str_eq(op, "contains") {
            let hay = crate::strutil::to_chars(actual_value);
            crate::strutil::contains_str(&hay, self.value.as_str())
        } else if crate::strutil::str_eq(op, "starts_with") {
            let hay = crate::strutil::to_chars(actual_value);
            let needle = crate::strutil::to_chars(self.value.as_str());
            crate::strutil::starts_with_chars(&hay, &needle)
        } else if crate::strutil::str_eq(op, "ends_with") {
            let hay = crate::strutil::to_chars(actual_value);
            let needle = crate::strutil::to_chars(self.value.as_str());
            crate::strutil::ends_with_chars(&hay, &needle)
        } else if crate::strutil::str_eq(op, "not_equals") {
            !crate::strutil::str_eq(actual_value, self.value.as_str())
        } else if crate::strutil::str_eq(op, "not_contains") {
            let hay = crate::strutil::to_chars(actual_value);
            !crate::strutil::contains_str(&hay, self.value.as_str())
        } else if crate::strutil::str_eq(op, "regex") {
            match crate::external::regex_is_match(self.value.as_str(), actual_value) {
                Some(b) => b,
                None => false,
            }
        } else {
            false
        }
    }

    /// A copy carrying the same data.
    pub fn duplicate(&self) -> (r: TriggerCondition)
        ensures
            r.field@ == self.field@,
            r.operator@ == self.operator@,
            r.value@ == self.value@,
    {
        TriggerCondition {
            field: self.field.clone(),
            operator: self.operator.clone(),
            value: self.value.clone(),
        }
    }
}

/// An event payload handed to the trigger engine.
#[derive(Debug, Clone)]
pub struct TriggerEvent {
    pub trigger_id: String,
    pub trigger_type: TriggerType,
    /// When the event happened, as a caller-supplied timestamp tick.
    pub timestamp: u64,
    pub data: Payload,
}

impl TriggerEvent {
    /// A file-created event.
    pub fn file_created(trigger_id: &str, path: &str, timestamp: u64) -> (r: TriggerEvent)
        ensures
            r.trigger_id@ == trigger_id@,
            r.trigger_type == TriggerType::FileSystem,
            r.timestamp == timestamp,
            r.data.wf(),
            r.data.spec_get("event"@) == Some("created"@),
            r.data.spec_get("path"@) == Some(path@),
            forall|k: Seq<char>| k != "event"@ && k != "path"@ ==> r.data.spec_get(k) is None,
    {
        let mut data = Payload::new();
        data.set(String::from_str("event"), String::from_str("created"));
        proof {
            reveal_strlit("event");
            reveal_strlit("path");
            assert(data.spec_get("event"@) == Some("created"@));
            assert("event"@.len() == 5);
            assert("path"@.len() == 4);
            assert("event"@ != "path"@);
        }
        data.set(String::from_str("path"), String::from_str(path));
        proof {
            assert(data.spec_get("path"@) == Some(path@));
            assert(data.spec_get("event"@) == Some("created"@));
            assert(forall|k: Seq<char>|
                k != "event"@ && k != "path"@ ==> data.spec_get(k) is None);
        }
        TriggerEvent {
            trigger_id: String::from_str(trigger_id),
            trigger_type: TriggerType::FileSystem,
            timestamp,
            data,
        }
    }

    /// A file-modified event.
    pub fn file_modified(trigger_id: &str, path: &str, timestamp: u64) -> (r: TriggerEvent)
        ensures
            r.trigger_id@ == trigger_id@,
            r.trigger_type == TriggerType::FileSystem,
            r.timestamp == timestamp,
            r.data.wf(),
            r.data.spec_get("event"@) == Some("modified"@),
            r.data.spec_get("path"@) == Some(path@),
            forall|k: Seq<char>| k != "event"@ && k != "path"@ ==> r.data.spec_get(k) is None,
    {
        let mut data = Payload::new();
        data.set(String::from_str("event"), String::from_str("modified"));
        proof {
            reveal_strlit("event");
            reveal_strlit("path");
            assert("event"@.len() == 5);
            assert("path"@.len() == 4);
            assert(data.spec_get("event"@) == Some("modified"@));
        }
        data.set(String::from_str("path"), String::from_str(path));
        proof {
            assert(data.spec_get("path"@) == Some(path@));
            assert(data.spec_get("event"@) == Some("modified"@));
            assert(forall|k: Seq<char>|
                k != "event"@ && k != "path"@ ==> data.spec_get(k) is None);
        }
        TriggerEvent {
            trigger_id: String::from_str(trigger_id),
            trigger_type: TriggerType::FileSystem,
            timestamp,
            data,
        }
    }

    /// An email-received event.
    pub fn email_received(trigger_id: &str, from: &str, subject: &str, timestamp: u64) -> (r:
        TriggerEvent)
        ensures
            r.trigger_id@ == trigger_id@,
            r.trigger_type == TriggerType::Email,
            r.timestamp == timestamp,
            r.data.wf(),
            r.data.spec_get("event"@) == Some("received"@),
            r.data.spec_get("from"@) == Some(from@),
            r.data.spec_get("subject"@) == Some(subject@),
            forall|k: Seq<char>|
                k != "event"@ && k != "from"@ && k != "subject"@ ==> r.data.spec_get(k)
                    is None,
    {
        let mut data = Payload::new();
        data.set(String::from_str("event"), String::from_str("received"));
        proof {
            reveal_strlit("event");
            reveal_strlit("from");
            reveal_strlit("subject");
            assert("event"@.len() == 5);
            assert("from"@.len() == 4);
            assert("subject"@.len() == 7);
            assert(data.spec_get("event"@) == Some("received"@));
        }
        data.set(String::from_str("from"), String::from_str(from));
        proof {
            assert(data.spec_get("from"@) == Some(from@));
            assert(data.spec_get("event"@) == Some("received"@));
        }
        data.set(String::from_str("subject"), String::from_str(subject));
        proof {
            assert(data.spec_get("subject"@) == Some(subject@));
            assert(data.spec_get("from"@) == Some(from@));
            assert(data.spec_get("event"@) == Some("received"@));
            assert(forall|k: Seq<char>|
                k != "event"@ && k != "from"@ && k != "subject"@ ==> data.spec_get(k)
                    is None);
        }
        TriggerEvent {
            trigger_id: String::from_str(trigger_id),
            trigger_type: TriggerType::Email,
            timestamp,
            data,
        }
    }

    /// A webhook event: the request body's fields, plus the event kind and
    /// the HTTP method.
    pub fn webhook_received(trigger_id: &str, method: &str, body: &Payload, timestamp: u64) -> (r:
        TriggerEvent)
        requires
            body.wf(),
        ensures
            r.trigger_id@ == trigger_id@,
            r.trigger_type == TriggerType::Webhook,
            r.timestamp == timestamp,
            r.data.wf(),
            r.data.spec_get("event"@) == Some("received"@),
            r.data.spec_get("method"@) == Some(method@),
            forall|k: Seq<char>|
                k != "event"@ && k != "method"@ ==> r.data.spec_get(k) == body.spec_get(k),
    {
        let mut data = body.duplicate();
        let ghost copied: Payload = data;
        data.set(String::from_str("event"), String::from_str("received"));
        proof {
            reveal_strlit("event");
            reveal_strlit("method");
            assert("event"@.len() == 5);
            assert("method"@.len() == 6);
            assert(data.spec_get("event"@) == Some("received"@));
            assert(forall|k: Seq<char>|
                k != "event"@ ==> data.spec_get(k) == copied.spec_get(k));
            assert(forall|k: Seq<char>| copied.spec_get(k) == body.spec_get(k));
        }
        data.set(String::from_str("method"), String::from_str(method));
        proof {
            assert(data.spec_get("method"@) == Some(method@));
            assert(data.spec_get("event"@) == Some("received"@));
        }
        TriggerEvent {
            trigger_id: String::from_str(trigger_id),
            trigger_type: TriggerType::Webhook,
            timestamp,
            data,
        }
    }
}

/// A trigger that initiates tasks.
#[derive(Debug, Clone)]
pub struct Trigger {
    pub id: String,
    pub agent_id: String,
    pub name: String,
    pub trigger_type: TriggerType,
    pub config: TriggerConfig,
    /// All of these must hold of the event (logical AND).
    pub conditions: Vec<TriggerCondition>,
    pub task_type: String,
    pub task_input: Payload,
    pub enabled: bool,
    pub last_triggered: Option<u64>,
    pub created_at: u64,
}

/// All conditions hold of the event data; a condition on an absent field
/// is false.
pub open spec fn conditions_hold(conds: Seq<TriggerCondition>, data: Payload) -> bool {
    forall|i: int|
        0 <= i < conds.len() ==> match data.spec_get((#[trigger] conds[i]).field@) {
            Some(v) => conds[i].spec_eval(v),
            None => false,
        }
}

impl Trigger {
    /// The configuration fits the type and the template payload is
    /// well-formed.
    pub open spec fn wf(&self) -> bool {
        &&& config_fits(self.trigger_type, self.config)
        &&& self.task_input.wf()
    }

    /// The inbound call carries the webhook secret, where one is set; any
    /// other trigger type needs no authentication.
    pub open spec fn spec_authenticated(&self, provided: Option<Seq<char>>) -> bool {
        match self.config {
            TriggerConfig::Webhook(ref w) => match w.secret {
                Some(ref s) => provided == Some(s@),
                None => true,
            },
            _ => true,
        }
    }

    /// Executable twin of [`Trigger::spec_authenticated`].
    pub fn authenticated(&self, provided: Option<&str>) -> (r: bool)
        ensures
            r == self.spec_authenticated(match provided {
                Some(p) => Some(p@),
                None => None,
            }),
    {
        match &self.config {
            TriggerConfig::Webhook(w) => match &w.secret {
                Some(s) => match provided {
                    Some(p) => crate::strutil::str_eq(p, s.as_str()),
                    None => false,
                },
                None => true,
            },
            _ => true,
        }
    }

    /// Whether the trigger matches the event: it is enabled, listens to
    /// the event's type, the call is authenticated, and every condition
    /// holds of the event data.  Failed authentication rejects the event
    /// before any condition is evaluated.
    pub open spec fn spec_matches_event(&self, event: TriggerEvent, provided: Option<
        Seq<char>,
    >) -> bool {
        &&& self.enabled
        &&& self.trigger_type == event.trigger_type
        &&& self.spec_authenticated(provided)
        &&& conditions_hold(self.conditions@, event.data)
    }

    /// Executable twin of [`Trigger::spec_matches_event`].
    pub fn matches_event(&self, event: &TriggerEvent, provided: Option<&str>) -> (r: bool)
        ensures
            r == self.spec_matches_event(*event, match provided {
                Some(p) => Some(p@),
                None => None,
            }),
    {
        if !self.enabled {
            return false;
        }
        if !matches!((&self.trigger_type, &event.trigger_type),
            (TriggerType::FileSystem, TriggerType::FileSystem)
            | (TriggerType::Email, TriggerType::Email)
            | (TriggerType::Time, TriggerType::Time)
            | (TriggerType::Webhook, TriggerType::Webhook)
            | (TriggerType::Manual, TriggerType::Manual)) {
            return false;
        }
        if !self.authenticated(provided) {
            return false;
        }
        let n = self.conditions.len();
        let mut i: usize = 0;
        while i < n
            invariant
                n == self.conditions@.len(),
                0 <= i <= n,
                forall|k: int|
                    0 <= k < i ==> match event.data.spec_get(
                        (#[trigger] self.conditions@[k]).field@,
                    ) {
                        Some(v) => self.conditions@[k].spec_eval(v),
                        None => false,
                    },
            decreases n - i,
        {
            match event.data.get(self.conditions[i].field.as_str()) {
                Some(v) => {
                    if !self.conditions[i].evaluate(v.as_str()) {
                        return false;
                    }
                },
                None => {
                    return false;
                },
            }
            i += 1;
        }
        true
    }

    /// The task input a matching event materializes: the template merged
    /// with the event data, event fields taking precedence.
    pub fn merged_input(&self, event: &TriggerEvent) -> (r: Payload)
        requires
            self.wf(),
            event.data.wf(),
        ensures
            r.wf(),
            forall|k: Seq<char>|
                r.spec_get(k) == if event.data.spec_get(k) is Some {
                    event.data.spec_get(k)
                } else {
                    self.task_input.spec_get(k)
                },
    {
        Payload::merged(&self.task_input, &event.data)
    }

    /// The trigger with `last_triggered` stamped to `now`; nothing else
    /// changes.
    pub fn mark_triggered(&self, now: u64) -> (r: Trigger)
        ensures
            r.id@ == self.id@,
            r.agent_id@ == self.agent_id@,
            r.name@ == self.name@,
            r.trigger_type == self.trigger_type,
            r.conditions@.len() == self.conditions@.len(),
            r.task_type@ == self.task_type@,
            r.task_input.fields@ == self.task_input.fields@,
            r.enabled == self.enabled,
            r.last_triggered == Some(now),
            r.created_at == self.created_at,
            self.wf() ==> r.wf(),
    {
        let mut r = self.duplicate();
        r.last_triggered = Some(now);
        r
    }
}

/// Two configurations carry the same data, compared through views.
pub open spec fn config_eq_view(a: TriggerConfig, b: TriggerConfig) -> bool {
    match (a, b) {
        (TriggerConfig::FileSystem(x), TriggerConfig::FileSystem(y)) => {
            &&& x.path@ == y.path@
            &&& x.patterns.deep_view() == y.patterns.deep_view()
            &&& x.events.deep_view() == y.events.deep_view()
            &&& x.recursive == y.recursive
        },
        (TriggerConfig::Email(x), TriggerConfig::Email(y)) => {
            &&& crate::strutil::opt_view(x.from_contains) == crate::strutil::opt_view(
                y.from_contains,
            )
            &&& crate::strutil::opt_view(x.subject_contains) == crate::strutil::opt_view(
                y.subject_contains,
            )
            &&& x.has_attachment == y.has_attachment
            &&& x.labels.deep_view() == y.labels.deep_view()
            &&& x.poll_interval_seconds == y.poll_interval_seconds
        },
        (TriggerConfig::Webhook(x), TriggerConfig::Webhook(y)) => {
            &&& x.endpoint@ == y.endpoint@
            &&& crate::strutil::opt_view(x.secret) == crate::strutil::opt_view(y.secret)
            &&& x.method@ == y.method@
        },
        (TriggerConfig::Time, TriggerConfig::Time) => true,
        (TriggerConfig::Manual, TriggerConfig::Manual) => true,
        _ => false,
    }
}

/// Two conditions carry the same data, compared through views.
pub open spec fn cond_eq_view(a: TriggerCondition, b: TriggerCondition) -> bool {
    a.field@ == b.field@ && a.operator@ == b.operator@ && a.value@ == b.value@
}

/// Two triggers carry the same data, compared through views.
pub open spec fn trig_eq_view(a: Trigger, b: Trigger) -> bool {
    &&& a.id@ == b.id@
    &&& a.agent_id@ == b.agent_id@
    &&& a.name@ == b.name@
    &&& a.trigger_type == b.trigger_type
    &&& config_eq_view(a.config, b.config)
    &&& a.conditions@.len() == b.conditions@.len()
    &&& forall|k: int|
        0 <= k < a.conditions@.len() ==> cond_eq_view(
            #[trigger] a.conditions@[k],
            b.conditions@[k],
        )
    &&& a.task_type@ == b.task_type@
    &&& a.task_input.fields@ == b.task_input.fields@
    &&& a.enabled == b.enabled
    &&& a.last_triggered == b.last_triggered
    &&& a.created_at == b.created_at
}

impl Trigger {
    /// A copy carrying the same data.
    pub fn duplicate(&self) -> (r: Trigger)
        ensures
            trig_eq_view(r, *self),
            self.wf() ==> r.wf(),
    {
        let mut conditions: Vec<TriggerCondition> = Vec::new();
        let n = self.conditions.len();
        let mut i: usize = 0;
        while i < n
            invariant
                n == self.conditions@.len(),
                0 <= i <= n,
                conditions@.len() == i,
                forall|k: int|
                    0 <= k < i ==> cond_eq_view(
                        #[trigger] conditions@[k],
                        self.conditions@[k],
                    ),
            decreases n - i,
        {
            conditions.push(self.conditions[i].duplicate());
            i += 1;
        }
        Trigger {
            id: self.id.clone(),
            agent_id: self.agent_id.clone(),
            name: self.name.clone(),
            trigger_type: self.trigger_type,
            config: dup_config(&self.config),
            conditions,
            task_type: self.task_type.clone(),
            task_input: self.task_input.duplicate(),
            enabled: self.enabled,
            last_triggered: self.last_triggered,
            created_at: self.created_at,
        }
    }
}

/// A copy of a trigger configuration with the same variant.
fn dup_config(c: &TriggerConfig) -> (r: TriggerConfig)
    ensures
        config_eq_view(r, *c),
        forall|t: TriggerType| config_fits(t, r) == config_fits(t, *c),
{
    match c {
        TriggerConfig::FileSystem(f) => TriggerConfig::FileSystem(
            FileSystemTriggerConfig {
                path: f.path.clone(),
                patterns: crate::strutil::clone_string_vec(&f.patterns),
                events: crate::strutil::clone_string_vec(&f.events),
                recursive: f.recursive,
            },
        ),
        TriggerConfig::Email(e) => TriggerConfig::Email(
            EmailTriggerConfig {
                from_contains: crate::tasks::clone_opt_string(&e.from_contains),
                subject_contains: crate::tasks::clone_opt_string(&e.subject_contains),
                has_attachment: e.has_attachment,
                labels: crate::strutil::clone_string_vec(&e.labels),
                poll_interval_seconds: e.poll_interval_seconds,
            },
        ),
        TriggerConfig::Webhook(w) => TriggerConfig::Webhook(
            WebhookTriggerConfig {
                endpoint: w.endpoint.clone(),
                secret: crate::tasks::clone_opt_string(&w.secret),
                method: w.method.clone(),
            },
        ),
        TriggerConfig::Time => TriggerConfig::Time,
        TriggerConfig::Manual => TriggerConfig::Manual,
    }
}

} // verus!
