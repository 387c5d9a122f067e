//! Host-side core of a request/response and publish/subscribe protocol for
//! talking to small peers over a byte transport: keys and their negotiated
//! widths, the frame format, the in-flight request ledger, the subscription
//! table, the shared client state, the schema-report fold and the peer-side
//! handler table.

pub mod context;
pub mod dispatch;
pub mod frame;
pub mod key;
pub mod ledger;
pub mod request;
pub mod schema;
pub mod subscriptions;

pub use context::{HostContext, HostErr, ProcessError};
pub use dispatch::{Dispatch, Error};
pub use frame::RpcFrame;
pub use key::{Key, VarHeader, VarKey, VarKeyKind, VarSeq, VarSeqKind, WireHeader};
pub use ledger::{WaitError, WaitLedger, WakeOutcome};
pub use request::{plan_publish, plan_request, Reply, RequestPlan};
pub use schema::{
    build_report, check_totals, find_type, join_outcomes, resolve_endpoint, resolve_topic,
    EndpointReport, SchemaError, SchemaFragment, SchemaReport, SchemaTotals, TopicDirection,
    TopicReport, UnableToFindType,
};
pub use subscriptions::{IoClosed, SubscriptionTable};
