//! The side of the library that faces Python.
use crate::errors::RuntimeError;
use crate::metrics::OpenCtpSourceMetrics;
use crate::text::{joined3, joined5, same, signed_decimal, signed_decimal_text};
use vstd::prelude::*;

verus! {

/// The name of the capsule that holds a native sink.
pub const NATIVE_SOURCE_SINK_CAPSULE_NAME: &'static str = "zippy.native_source_sink.v1";

/// An error unless a capsule has the name of one that holds a native sink.
pub fn check_capsule_name(name: Option<&str>) -> (r: Result<(), String>)
    ensures
        match name {
            None => r matches Err(reason) && reason@
                == "native source sink capsule has no valid name"@,
            Some(name) => if name@ == NATIVE_SOURCE_SINK_CAPSULE_NAME@ {
                r is Ok
            } else {
                r matches Err(reason) && reason@ == "unexpected native source sink capsule name ["@
                    + name@ + "]"@
            },
        },
{
    match name {
        None => Err("native source sink capsule has no valid name".to_owned()),
        Some(name) => {
            if same(name, NATIVE_SOURCE_SINK_CAPSULE_NAME) {
                Ok(())
            } else {
                Err(joined3("unexpected native source sink capsule name [", name, "]"))
            }
        },
    }
}

/// The result of a call of a native sink that returned `code`.
pub fn call_result(kind: &str, code: i32) -> (r: Result<(), RuntimeError>)
    ensures
        if code == 0 {
            r is Ok
        } else {
            r matches Err(error) && error.is_io(
                "native source sink call failed kind=["@ + kind@ + "] code=["@ + signed_decimal(
                    code as int,
                ) + "]"@,
            )
        },
{
    if code == 0 {
        return Ok(());
    }
    let code_text: String = signed_decimal_text(code as i64);
    Err(
        RuntimeError::Io {
            reason: joined5(
                "native source sink call failed kind=[",
                kind,
                "] code=[",
                code_text.as_str(),
                "]",
            ),
        },
    )
}

/// Where the way to a sink can fail.
#[derive(Debug, Clone, Copy, PartialEq, Eq, Structural)]
pub enum SinkFailure {
    /// The stream's name cannot be handed to a native sink.
    StreamName,
    OpenIpc,
    WriteIpc,
    FinishIpc,
    /// A sink in Python failed.
    Python,
}

impl SinkFailure {
    /// What failed.
    pub open spec fn what(self) -> Seq<char> {
        match self {
            SinkFailure::StreamName => "native source sink stream name contains nul error=["@,
            SinkFailure::OpenIpc => "native source sink failed to open ipc writer error=["@,
            SinkFailure::WriteIpc => "native source sink failed to write ipc batch error=["@,
            SinkFailure::FinishIpc => "native source sink failed to finish ipc stream error=["@,
            SinkFailure::Python => "python source bridge failed error=["@,
        }
    }

    /// The failure, with the error that caused it.
    pub fn with_error(self, error: &str) -> (failure: RuntimeError)
        ensures
            failure.is_io(self.what() + error@ + "]"@),
    {
        let what: &str = match self {
            SinkFailure::StreamName => "native source sink stream name contains nul error=[",
            SinkFailure::OpenIpc => "native source sink failed to open ipc writer error=[",
            SinkFailure::WriteIpc => "native source sink failed to write ipc batch error=[",
            SinkFailure::FinishIpc => "native source sink failed to finish ipc stream error=[",
            SinkFailure::Python => "python source bridge failed error=[",
        };
        RuntimeError::Io { reason: joined3(what, error, "]") }
    }
}

/// The counters that Python sees, by their names.
pub open spec fn shown_metrics(metrics: OpenCtpSourceMetrics) -> Seq<(Seq<char>, u64)> {
    seq![
        ("ticks_received_total"@, metrics.ticks_received_total),
        ("ticks_emitted_total"@, metrics.ticks_emitted_total),
        ("batches_emitted_total"@, metrics.batches_emitted_total),
        ("reconnects_total"@, metrics.reconnects_total),
        ("login_failures_total"@, metrics.login_failures_total),
        ("subscribe_failures_total"@, metrics.subscribe_failures_total),
    ]
}

/// The counters that Python sees, by their names.
pub fn metrics_entries(metrics: &OpenCtpSourceMetrics) -> (entries: Vec<(&'static str, u64)>)
    ensures
        entries@.map_values(|entry: (&'static str, u64)| (entry.0@, entry.1)) == shown_metrics(
            *metrics,
        ),
{
    let mut entries: Vec<(&'static str, u64)> = Vec::new();
    entries.push(("ticks_received_total", metrics.ticks_received_total));
    entries.push(("ticks_emitted_total", metrics.ticks_emitted_total));
    entries.push(("batches_emitted_total", metrics.batches_emitted_total));
    entries.push(("reconnects_total", metrics.reconnects_total));
    entries.push(("login_failures_total", metrics.login_failures_total));
    entries.push(("subscribe_failures_total", metrics.subscribe_failures_total));
    assert(entries@.map_values(|entry: (&'static str, u64)| (entry.0@, entry.1)) =~= shown_metrics(
        *metrics,
    ));
    entries
}

/// The call of a runtime handle that blocks.
#[derive(Debug, Clone, Copy, PartialEq, Eq, Structural)]
pub enum BlockingKind {
    Join,
    Stop,
}

/// The call of a runtime handle that `name` names.
pub fn blocking_kind(name: &str) -> (r: Result<BlockingKind, &'static str>)
    ensures
        match r {
            Ok(BlockingKind::Join) => name@ == "join"@,
            Ok(BlockingKind::Stop) => name@ == "stop"@,
            Err(reason) => {
                &&& name@ != "join"@
                &&& name@ != "stop"@
                &&& reason@ == "blocking_kind must be 'join' or 'stop'"@
            },
        },
{
    if same(name, "join") {
        Ok(BlockingKind::Join)
    } else if same(name, "stop") {
        Ok(BlockingKind::Stop)
    } else {
        Err("blocking_kind must be 'join' or 'stop'")
    }
}

/// Python sees every counter under its own name.
pub proof fn law_counters_have_their_names(
    metrics: &OpenCtpSourceMetrics,
    entries: Vec<(&'static str, u64)>,
)
    requires
        call_ensures(metrics_entries, (metrics,), entries),
    ensures
        entries@.len() == 6,
        entries@[0].0@ == "ticks_received_total"@ && entries@[0].1 == metrics.ticks_received_total,
        entries@[1].0@ == "ticks_emitted_total"@ && entries@[1].1 == metrics.ticks_emitted_total,
        entries@[2].0@ == "batches_emitted_total"@ && entries@[2].1 == metrics.batches_emitted_total,
        entries@[3].0@ == "reconnects_total"@ && entries@[3].1 == metrics.reconnects_total,
        entries@[4].0@ == "login_failures_total"@ && entries@[4].1 == metrics.login_failures_total,
        entries@[5].0@ == "subscribe_failures_total"@ && entries@[5].1
            == metrics.subscribe_failures_total,
{
    let shown = entries@.map_values(|entry: (&'static str, u64)| (entry.0@, entry.1));
    assert(shown.len() == 6);
    assert(shown[0] == (entries@[0].0@, entries@[0].1));
    assert(shown[1] == (entries@[1].0@, entries@[1].1));
    assert(shown[2] == (entries@[2].0@, entries@[2].1));
    assert(shown[3] == (entries@[3].0@, entries@[3].1));
    assert(shown[4] == (entries@[4].0@, entries@[4].1));
    assert(shown[5] == (entries@[5].0@, entries@[5].1));
}

/// A call of a native sink succeeded if and only if it returned zero; otherwise the failure names the
/// call and what it returned.
pub proof fn law_calls_go_by_their_code(kind: &str, code: i32, r: Result<(), RuntimeError>)
    requires
        call_ensures(call_result, (kind, code), r),
    ensures
        r is Ok <==> code == 0,
        r matches Err(error) ==> error.is_io(
            "native source sink call failed kind=["@ + kind@ + "] code=["@ + signed_decimal(
                code as int,
            ) + "]"@,
        ),
{
}

/// A capsule holds a native sink if and only if it has the name of one.
pub proof fn law_capsules_go_by_their_name(name: Option<&str>, r: Result<(), String>)
    requires
        call_ensures(check_capsule_name, (name,), r),
    ensures
        r is Ok <==> (name matches Some(text) && text@ == "zippy.native_source_sink.v1"@),
{
}

/// The two calls that block have their names, and no other name is one.
pub proof fn law_blocking_calls_have_their_names(name: &str, r: Result<BlockingKind, &'static str>)
    requires
        call_ensures(blocking_kind, (name,), r),
    ensures
        name@ == "join"@ ==> (r matches Ok(kind) && kind is Join),
        name@ == "stop"@ ==> (r matches Ok(kind) && kind is Stop),
        r is Err <==> name@ != "join"@ && name@ != "stop"@,
{
    reveal_strlit("join");
    reveal_strlit("stop");
    assert("join"@[0] == 'j');
    assert("stop"@[0] == 's');
}

} // verus!
