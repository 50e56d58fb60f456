//! The decisions of the extension's start-up: in which order it registers
//! its engines, how it asks the host for the full-text API, and whether the
//! API it got can take a tokenizer.
//!
//! Each call into the host is the caller's; what is decided here is which
//! call comes next, and which status ends the start-up.

use vstd::prelude::*;

use crate::host::{SQLITE_ERROR, SQLITE_OK};

verus! {

/// The status with which a step of a statement reports a row.
pub const SQLITE_ROW: i32 = 100;

/// The oldest version of the full-text API that registers tokenizers.
pub const MIN_API_VERSION: i32 = 2;

/// The engines that the extension registers, in their order.
#[derive(Clone, Copy, Debug, PartialEq, Eq, Structural)]
pub enum Engine {
    Baize,
    Jieba,
}

/// The name under which the host knows an engine.
pub fn engine_name(engine: Engine) -> (name: &'static str)
    ensures
        name@ == match engine {
            Engine::Baize => "baize"@,
            Engine::Jieba => "jieba"@,
        },
{
    match engine {
        Engine::Baize => "baize",
        Engine::Jieba => "jieba",
    }
}

/// What the start-up does next.
#[derive(Clone, Copy, Debug, PartialEq, Eq, Structural)]
pub enum Load {
    /// Register this engine.
    Register(Engine),
    /// End the start-up with this status.
    Return(i32),
}

/// The step after the registration of `done` has ended with `status`; with
/// no registration done yet, the first step. The engines are registered in
/// their order as long as each registration succeeds; the status of the
/// first that fails, or else of the last, ends the start-up.
pub open spec fn load_after(done: Option<Engine>, status: i32) -> Load {
    match done {
        None => Load::Register(Engine::Baize),
        Some(Engine::Baize) => if status != SQLITE_OK {
            Load::Return(status)
        } else {
            Load::Register(Engine::Jieba)
        },
        Some(Engine::Jieba) => Load::Return(status),
    }
}

/// The next step of the start-up.
pub fn next_load(done: Option<Engine>, status: i32) -> (next: Load)
    ensures
        next == load_after(done, status),
{
    match done {
        None => Load::Register(Engine::Baize),
        Some(Engine::Baize) => if status != SQLITE_OK {
            Load::Return(status)
        } else {
            Load::Register(Engine::Jieba)
        },
        Some(Engine::Jieba) => Load::Return(status),
    }
}

/// The calls by which the full-text API is asked for, in their order: a
/// statement that selects it is prepared, a pointer is bound to the
/// statement's parameter, the statement is stepped once and then finalized.
#[derive(Clone, Copy, Debug, PartialEq, Eq, Structural)]
pub enum Call {
    Prepare,
    BindPointer,
    Step,
    Finalize,
}

/// What the query for the API does next.
#[derive(Clone, Copy, Debug, PartialEq, Eq, Structural)]
pub enum Next {
    /// Make this call.
    Call(Call),
    /// End the query with this status.
    Return(i32),
}

/// The step after `done` has returned `status`. Preparing and binding must
/// succeed and the step must report a row for the query to go on; any other
/// status ends it and is returned as it is. The status of finalizing is the
/// query's.
pub open spec fn query_after(done: Call, status: i32) -> Next {
    match done {
        Call::Prepare => if status != SQLITE_OK {
            Next::Return(status)
        } else {
            Next::Call(Call::BindPointer)
        },
        Call::BindPointer => if status != SQLITE_OK {
            Next::Return(status)
        } else {
            Next::Call(Call::Step)
        },
        Call::Step => if status != SQLITE_ROW {
            Next::Return(status)
        } else {
            Next::Call(Call::Finalize)
        },
        Call::Finalize => Next::Return(status),
    }
}

/// The next step of the query for the API, which starts with
/// `Call::Prepare`.
pub fn next_call(done: Call, status: i32) -> (next: Next)
    ensures
        next == query_after(done, status),
{
    match done {
        Call::Prepare => if status != SQLITE_OK {
            Next::Return(status)
        } else {
            Next::Call(Call::BindPointer)
        },
        Call::BindPointer => if status != SQLITE_OK {
            Next::Return(status)
        } else {
            Next::Call(Call::Step)
        },
        Call::Step => if status != SQLITE_ROW {
            Next::Return(status)
        } else {
            Next::Call(Call::Finalize)
        },
        Call::Finalize => Next::Return(status),
    }
}

/// The number of calls that a query still makes at most, `done` included.
pub open spec fn calls_left(done: Call) -> nat {
    match done {
        Call::Prepare => 4,
        Call::BindPointer => 3,
        Call::Step => 2,
        Call::Finalize => 1,
    }
}

/// What `call` returns in a query whose calls, as far as they are made,
/// return `prepared`, `bound`, `stepped` and `finalized`.
pub open spec fn answer_of(
    call: Call,
    prepared: i32,
    bound: i32,
    stepped: i32,
    finalized: i32,
) -> i32 {
    match call {
        Call::Prepare => prepared,
        Call::BindPointer => bound,
        Call::Step => stepped,
        Call::Finalize => finalized,
    }
}

/// The status with which such a query ends once it has made `call`.
pub open spec fn query_from(
    call: Call,
    prepared: i32,
    bound: i32,
    stepped: i32,
    finalized: i32,
) -> i32
    decreases calls_left(call),
{
    match query_after(call, answer_of(call, prepared, bound, stepped, finalized)) {
        Next::Call(next) => query_from(next, prepared, bound, stepped, finalized),
        Next::Return(status) => status,
    }
}

/// The calls are made in their order, and the first that does not return
/// what the query needs ends it with its status; if all do, the status of
/// finalizing is the query's.
pub proof fn lemma_query_ends_at_first_failure(
    prepared: i32,
    bound: i32,
    stepped: i32,
    finalized: i32,
)
    ensures
        query_from(Call::Prepare, prepared, bound, stepped, finalized) == if prepared
            != SQLITE_OK {
            prepared
        } else if bound != SQLITE_OK {
            bound
        } else if stepped != SQLITE_ROW {
            stepped
        } else {
            finalized
        },
{
    reveal_with_fuel(query_from, 5);
}

/// What a registration does once the query for the API has ended.
#[derive(Clone, Copy, Debug, PartialEq, Eq, Structural)]
pub enum Registration {
    /// Hand the engine's functions to the API, and return what it returns.
    CreateTokenizer,
    /// End the registration with this status.
    Return(i32),
}

/// What follows a query that ended with `status` and left the API whose
/// version is `api`, or none: a failed query ends the registration with its
/// status; a missing API, or one older than `MIN_API_VERSION`, ends it with
/// the general failure; else the engine is handed over.
pub open spec fn registration_after(status: i32, api: Option<i32>) -> Registration {
    if status != SQLITE_OK {
        Registration::Return(status)
    } else {
        match api {
            Some(version) if version >= MIN_API_VERSION => Registration::CreateTokenizer,
            _ => Registration::Return(SQLITE_ERROR),
        }
    }
}

/// The step of a registration that follows the query for the API.
pub fn next_registration(status: i32, api: Option<i32>) -> (next: Registration)
    ensures
        next == registration_after(status, api),
{
    if status != SQLITE_OK {
        return Registration::Return(status);
    }
    match api {
        Some(version) => if version >= MIN_API_VERSION {
            Registration::CreateTokenizer
        } else {
            Registration::Return(SQLITE_ERROR)
        },
        None => Registration::Return(SQLITE_ERROR),
    }
}

} // verus!
