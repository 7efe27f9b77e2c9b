//! Event envelopes passed between runtime boundaries: identifiers, tracing and
//! delivery metadata, and the gateway-to-worker handoff envelope.

use vstd::prelude::*;
use vstd::string::StringExecFns;

use crate::clock::now_epoch_ms;
use crate::text::{blank, is_blank, is_white_space};

verus! {

/// Engine class an event is addressed to.
#[derive(Debug, Clone, Copy, PartialEq, Eq, Structural)]
pub enum MemoryEngineType {
    Structure,
    Semantic,
    Temporal,
    Graph,
}

/// A contract field that failed validation.
#[derive(Debug, Clone, PartialEq, Eq)]
pub struct ContractError {
    field: &'static str,
    reason: &'static str,
}

impl View for ContractError {
    /// The offending field and the reason, as texts.
    type V = (Seq<char>, Seq<char>);

    closed spec fn view(&self) -> (Seq<char>, Seq<char>) {
        (self.field@, self.reason@)
    }
}

/// The reason given for a blank required field.
pub open spec fn empty_reason() -> Seq<char> {
    "must not be empty"@
}

impl ContractError {
    fn empty(field: &'static str) -> (e: Self)
        ensures
            e@ == (field@, empty_reason()),
    {
        Self { field, reason: "must not be empty" }
    }

    /// The message `"<field> <reason>"`.
    pub fn to_string(&self) -> (s: String)
        ensures
            s@ == self@.0 + " "@ + self@.1,
    {
        let mut s = String::from_str(self.field);
        s.append(" ");
        s.append(self.reason);
        s
    }
}

/// An event identifier: any text that is not blank.
#[derive(Debug, Clone, PartialEq, Eq, Hash)]
pub struct EventId(String);

/// A handoff identifier: any text that is not blank.
#[derive(Debug, Clone, PartialEq, Eq, Hash)]
pub struct HandoffId(String);

/// A correlation identifier: any text that is not blank.
#[derive(Debug, Clone, PartialEq, Eq, Hash)]
pub struct CorrelationId(String);

/// A trace identifier: any text that is not blank.
#[derive(Debug, Clone, PartialEq, Eq, Hash)]
pub struct TraceId(String);

/// A span identifier: any text that is not blank.
#[derive(Debug, Clone, PartialEq, Eq, Hash)]
pub struct SpanId(String);

/// A deduplication key: any text that is not blank.
#[derive(Debug, Clone, PartialEq, Eq, Hash)]
pub struct DedupeKey(String);

impl View for EventId {
    type V = Seq<char>;

    closed spec fn view(&self) -> Seq<char> {
        self.0@
    }
}

impl View for HandoffId {
    type V = Seq<char>;

    closed spec fn view(&self) -> Seq<char> {
        self.0@
    }
}

impl View for CorrelationId {
    type V = Seq<char>;

    closed spec fn view(&self) -> Seq<char> {
        self.0@
    }
}

impl View for TraceId {
    type V = Seq<char>;

    closed spec fn view(&self) -> Seq<char> {
        self.0@
    }
}

impl View for SpanId {
    type V = Seq<char>;

    closed spec fn view(&self) -> Seq<char> {
        self.0@
    }
}

impl View for DedupeKey {
    type V = Seq<char>;

    closed spec fn view(&self) -> Seq<char> {
        self.0@
    }
}

impl EventId {
    pub fn parse(value: &str) -> (r: Result<Self, ContractError>)
        ensures
            match r {
                Ok(id) => !is_blank(value@) && id@ == value@,
                Err(e) => is_blank(value@) && e@ == ("event_id"@, empty_reason()),
            },
    {
        if blank(value) {
            return Err(ContractError::empty("event_id"));
        }
        Ok(Self(String::from_str(value)))
    }

    pub fn as_str(&self) -> (s: &str)
        ensures
            s@ == self@,
    {
        self.0.as_str()
    }
}

impl HandoffId {
    pub fn parse(value: &str) -> (r: Result<Self, ContractError>)
        ensures
            match r {
                Ok(id) => !is_blank(value@) && id@ == value@,
                Err(e) => is_blank(value@) && e@ == ("handoff_id"@, empty_reason()),
            },
    {
        if blank(value) {
            return Err(ContractError::empty("handoff_id"));
        }
        Ok(Self(String::from_str(value)))
    }

    pub fn as_str(&self) -> (s: &str)
        ensures
            s@ == self@,
    {
        self.0.as_str()
    }
}

impl CorrelationId {
    pub fn parse(value: &str) -> (r: Result<Self, ContractError>)
        ensures
            match r {
                Ok(id) => !is_blank(value@) && id@ == value@,
                Err(e) => is_blank(value@) && e@ == ("correlation_id"@, empty_reason()),
            },
    {
        if blank(value) {
            return Err(ContractError::empty("correlation_id"));
        }
        Ok(Self(String::from_str(value)))
    }

    pub fn as_str(&self) -> (s: &str)
        ensures
            s@ == self@,
    {
        self.0.as_str()
    }
}

impl TraceId {
    pub fn parse(value: &str) -> (r: Result<Self, ContractError>)
        ensures
            match r {
                Ok(id) => !is_blank(value@) && id@ == value@,
                Err(e) => is_blank(value@) && e@ == ("trace_id"@, empty_reason()),
            },
    {
        if blank(value) {
            return Err(ContractError::empty("trace_id"));
        }
        Ok(Self(String::from_str(value)))
    }

    pub fn as_str(&self) -> (s: &str)
        ensures
            s@ == self@,
    {
        self.0.as_str()
    }
}

impl SpanId {
    pub fn parse(value: &str) -> (r: Result<Self, ContractError>)
        ensures
            match r {
                Ok(id) => !is_blank(value@) && id@ == value@,
                Err(e) => is_blank(value@) && e@ == ("span_id"@, empty_reason()),
            },
    {
        if blank(value) {
            return Err(ContractError::empty("span_id"));
        }
        Ok(Self(String::from_str(value)))
    }

    pub fn as_str(&self) -> (s: &str)
        ensures
            s@ == self@,
    {
        self.0.as_str()
    }
}

impl DedupeKey {
    pub fn parse(value: &str) -> (r: Result<Self, ContractError>)
        ensures
            match r {
                Ok(id) => !is_blank(value@) && id@ == value@,
                Err(e) => is_blank(value@) && e@ == ("dedupe_key"@, empty_reason()),
            },
    {
        if blank(value) {
            return Err(ContractError::empty("dedupe_key"));
        }
        Ok(Self(String::from_str(value)))
    }

    pub fn as_str(&self) -> (s: &str)
        ensures
            s@ == self@,
    {
        self.0.as_str()
    }
}

/// Tracing identifiers carried along with an event.
#[derive(Debug, Clone, PartialEq, Eq)]
pub struct TraceContext {
    pub trace_id: TraceId,
    pub span_id: SpanId,
    pub correlation_id: CorrelationId,
    pub causation_event_id: Option<EventId>,
    pub parent_span_id: Option<SpanId>,
}

/// Who produced an event, when, for which engine, at which delivery attempt.
#[derive(Debug, Clone, PartialEq, Eq)]
pub struct DeliveryMetadata {
    pub producer: String,
    pub produced_at_ms: u128,
    pub target_engine: MemoryEngineType,
    pub attempt: u32,
}

impl DeliveryMetadata {
    /// Stamps the metadata with the current time, in milliseconds since the Unix
    /// epoch (zero for a clock before it); see `stamped`.
    pub fn new(producer: &str, target_engine: MemoryEngineType, attempt: u32) -> (r: Result<
        Self,
        ContractError,
    >)
        ensures
            match r {
                Ok(m) => {
                    &&& !is_blank(producer@)
                    &&& m.producer@ == producer@
                    &&& m.target_engine == target_engine
                    &&& m.attempt == attempt
                },
                Err(e) => is_blank(producer@) && e@ == ("producer"@, empty_reason()),
            },
    {
        Self::stamped(producer, target_engine, attempt, now_epoch_ms())
    }

    /// Metadata produced at `produced_at_ms`; the producer must not be blank.
    pub fn stamped(
        producer: &str,
        target_engine: MemoryEngineType,
        attempt: u32,
        produced_at_ms: u128,
    ) -> (r: Result<Self, ContractError>)
        ensures
            match r {
                Ok(m) => {
                    &&& !is_blank(producer@)
                    &&& m.producer@ == producer@
                    &&& m.produced_at_ms == produced_at_ms
                    &&& m.target_engine == target_engine
                    &&& m.attempt == attempt
                },
                Err(e) => is_blank(producer@) && e@ == ("producer"@, empty_reason()),
            },
    {
        if blank(producer) {
            return Err(ContractError::empty("producer"));
        }
        Ok(Self { producer: String::from_str(producer), produced_at_ms, target_engine, attempt })
    }
}

/// The key under which an envelope is deduplicated: `handoff:event_type:event`.
pub open spec fn envelope_dedupe_key(
    handoff_id: Seq<char>,
    event_type: Seq<char>,
    event_id: Seq<char>,
) -> Seq<char> {
    handoff_id + ":"@ + event_type + ":"@ + event_id
}

/// A payload with the identity, tracing and delivery data of its handoff.
#[derive(Debug, Clone, PartialEq, Eq)]
pub struct HandoffEnvelope<TPayload> {
    pub event_id: EventId,
    pub handoff_id: HandoffId,
    pub event_type: String,
    pub dedupe_key: DedupeKey,
    pub trace: TraceContext,
    pub delivery: DeliveryMetadata,
    pub payload: TPayload,
}

impl<TPayload> HandoffEnvelope<TPayload> {
    /// Builds an envelope whose dedupe key is derived from the handoff, the event
    /// type and the event; the event type must not be blank.
    pub fn new(
        event_id: EventId,
        handoff_id: HandoffId,
        event_type: &str,
        trace: TraceContext,
        delivery: DeliveryMetadata,
        payload: TPayload,
    ) -> (r: Result<Self, ContractError>)
        ensures
            match r {
                Ok(env) => {
                    &&& !is_blank(event_type@)
                    &&& env.event_id == event_id
                    &&& env.handoff_id == handoff_id
                    &&& env.event_type@ == event_type@
                    &&& env.dedupe_key@ == envelope_dedupe_key(
                        handoff_id@,
                        event_type@,
                        event_id@,
                    )
                    &&& env.trace == trace
                    &&& env.delivery == delivery
                    &&& env.payload == payload
                },
                Err(e) => is_blank(event_type@) && e@ == ("event_type"@, empty_reason()),
            },
    {
        if blank(event_type) {
            return Err(ContractError::empty("event_type"));
        }
        let mut key = String::from_str(handoff_id.as_str());
        key.append(":");
        key.append(event_type);
        key.append(":");
        key.append(event_id.as_str());
        proof {
            reveal_strlit(":");
            let k = key@;
            assert(k[handoff_id@.len() as int] == ':');
            assert(!is_white_space(k[handoff_id@.len() as int]));
        }
        let dedupe_key = match DedupeKey::parse(key.as_str()) {
            Ok(k) => k,
            Err(e) => {
                return Err(e);
            },
        };
        Ok(Self {
            event_id,
            handoff_id,
            event_type: String::from_str(event_type),
            dedupe_key,
            trace,
            delivery,
            payload,
        })
    }
}

} // verus!
