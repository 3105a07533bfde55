//! Which handler a request goes to.

use vstd::prelude::*;
use crate::bytes::{bytes_eq, copy_bytes};
use crate::status::text::{ascii, has_prefix, starts_with, text};

verus! {

/// The method of a request.
#[derive(Clone, Copy, Debug, PartialEq, Eq, Structural)]
pub enum Method {
    Get,
    Post,
    Put,
    Delete,
    /// Any other method.
    Other,
}

/// The handlers of the status service.
#[derive(Clone, Copy, Debug, PartialEq, Eq, Structural)]
pub enum Route {
    /// Setting, removing and listing fail points.
    FailPoints,
    Metrics,
    Status,
    Ready,
    /// The list of heap profiles, which is no longer kept.
    HeapList,
    /// The switch that turned heap profiling on, which is gone.
    HeapActivate,
    /// The switch that turned heap profiling off, which is gone.
    HeapDeactivate,
    HeapProfile,
    Cmdline,
    SymbolCount,
    Symbol,
    GetConfig,
    UpdateConfig,
    EngineType,
    ReloadConfig,
    CpuProfile,
    DebugFailPoint,
    RegionMeta,
    LogLevel,
    ResourceGroups,
    PauseGrpc,
    ResumeGrpc,
    AsyncTasks,
    CachedRegions,
    /// No handler serves the path under the method.
    Unknown,
}

/// The handler for a method and a path. With fail points built in, every
/// path that begins with `/fail` goes to them, whatever the method. Else the
/// method and the whole path decide, but for region metadata and the log
/// level, where the beginning of the path does.
pub open spec fn route_of(method: Method, path: Seq<u8>, fail_points: bool) -> Route {
    if fail_points && has_prefix(path, ascii("/fail"@)) {
        Route::FailPoints
    } else {
        match method {
            Method::Get => if path == ascii("/metrics"@) {
                Route::Metrics
            } else if path == ascii("/status"@) {
                Route::Status
            } else if path == ascii("/ready"@) {
                Route::Ready
            } else if path == ascii("/debug/pprof/heap_list"@) {
                Route::HeapList
            } else if path == ascii("/debug/pprof/heap_activate"@) {
                Route::HeapActivate
            } else if path == ascii("/debug/pprof/heap_deactivate"@) {
                Route::HeapDeactivate
            } else if path == ascii("/debug/pprof/heap"@) {
                Route::HeapProfile
            } else if path == ascii("/debug/pprof/cmdline"@) {
                Route::Cmdline
            } else if path == ascii("/debug/pprof/symbol"@) {
                Route::SymbolCount
            } else if path == ascii("/config"@) {
                Route::GetConfig
            } else if path == ascii("/engine_type"@) {
                Route::EngineType
            } else if path == ascii("/debug/pprof/profile"@) {
                Route::CpuProfile
            } else if path == ascii("/debug/fail_point"@) {
                Route::DebugFailPoint
            } else if has_prefix(path, ascii("/region"@)) {
                Route::RegionMeta
            } else if path == ascii("/resource_groups"@) {
                Route::ResourceGroups
            } else if path == ascii("/async_tasks"@) {
                Route::AsyncTasks
            } else if path == ascii("debug/ime/cached_regions"@) {
                Route::CachedRegions
            } else {
                Route::Unknown
            },
            Method::Post => if path == ascii("/debug/pprof/symbol"@) {
                Route::Symbol
            } else if path == ascii("/config"@) {
                Route::UpdateConfig
            } else {
                Route::Unknown
            },
            Method::Put => if path == ascii("/config/reload"@) {
                Route::ReloadConfig
            } else if has_prefix(path, ascii("/log-level"@)) {
                Route::LogLevel
            } else if path == ascii("/pause_grpc"@) {
                Route::PauseGrpc
            } else if path == ascii("/resume_grpc"@) {
                Route::ResumeGrpc
            } else {
                Route::Unknown
            },
            _ => Route::Unknown,
        }
    }
}

/// Whether a request must come with a certificate whose name is allowed.
/// Reading the metrics, the status, the configuration and a CPU profile
/// needs none; everything else may change the node or show user data.
pub open spec fn checks_cert(method: Method, path: Seq<u8>) -> bool {
    !(method == Method::Get && (path == ascii("/metrics"@) || path == ascii("/status"@) || path
        == ascii("/config"@) || path == ascii("/debug/pprof/profile"@)))
}

/// The path under which a request is counted: unknown paths are counted
/// together, so that they cannot make the number of series grow.
pub open spec fn label_of(route: Route, path: Seq<u8>) -> Seq<u8> {
    if route == Route::Unknown { ascii("unknown"@) } else { path }
}

/// The handler for a method and a path.
pub fn route(method: Method, path: &[u8], fail_points: bool) -> (r: Route)
    ensures
        r == route_of(method, path@, fail_points),
{
    proof {
        reveal_strlit("/fail");
        reveal_strlit("/metrics");
        reveal_strlit("/status");
        reveal_strlit("/ready");
        reveal_strlit("/debug/pprof/heap_list");
        reveal_strlit("/debug/pprof/heap_activate");
        reveal_strlit("/debug/pprof/heap_deactivate");
        reveal_strlit("/debug/pprof/heap");
        reveal_strlit("/debug/pprof/cmdline");
        reveal_strlit("/debug/pprof/symbol");
        reveal_strlit("/config");
        reveal_strlit("/engine_type");
        reveal_strlit("/debug/pprof/profile");
        reveal_strlit("/debug/fail_point");
        reveal_strlit("/region");
        reveal_strlit("/resource_groups");
        reveal_strlit("/async_tasks");
        reveal_strlit("debug/ime/cached_regions");
        reveal_strlit("/config/reload");
        reveal_strlit("/log-level");
        reveal_strlit("/pause_grpc");
        reveal_strlit("/resume_grpc");
    }
    if fail_points && starts_with(path, text("/fail")) {
        return Route::FailPoints;
    }
    match method {
        Method::Get => if bytes_eq(path, text("/metrics")) {
            Route::Metrics
        } else if bytes_eq(path, text("/status")) {
            Route::Status
        } else if bytes_eq(path, text("/ready")) {
            Route::Ready
        } else if bytes_eq(path, text("/debug/pprof/heap_list")) {
            Route::HeapList
        } else if bytes_eq(path, text("/debug/pprof/heap_activate")) {
            Route::HeapActivate
        } else if bytes_eq(path, text("/debug/pprof/heap_deactivate")) {
            Route::HeapDeactivate
        } else if bytes_eq(path, text("/debug/pprof/heap")) {
            Route::HeapProfile
        } else if bytes_eq(path, text("/debug/pprof/cmdline")) {
            Route::Cmdline
        } else if bytes_eq(path, text("/debug/pprof/symbol")) {
            Route::SymbolCount
        } else if bytes_eq(path, text("/config")) {
            Route::GetConfig
        } else if bytes_eq(path, text("/engine_type")) {
            Route::EngineType
        } else if bytes_eq(path, text("/debug/pprof/profile")) {
            Route::CpuProfile
        } else if bytes_eq(path, text("/debug/fail_point")) {
            Route::DebugFailPoint
        } else if starts_with(path, text("/region")) {
            Route::RegionMeta
        } else if bytes_eq(path, text("/resource_groups")) {
            Route::ResourceGroups
        } else if bytes_eq(path, text("/async_tasks")) {
            Route::AsyncTasks
        } else if bytes_eq(path, text("debug/ime/cached_regions")) {
            Route::CachedRegions
        } else {
            Route::Unknown
        },
        Method::Post => if bytes_eq(path, text("/debug/pprof/symbol")) {
            Route::Symbol
        } else if bytes_eq(path, text("/config")) {
            Route::UpdateConfig
        } else {
            Route::Unknown
        },
        Method::Put => if bytes_eq(path, text("/config/reload")) {
            Route::ReloadConfig
        } else if starts_with(path, text("/log-level")) {
            Route::LogLevel
        } else if bytes_eq(path, text("/pause_grpc")) {
            Route::PauseGrpc
        } else if bytes_eq(path, text("/resume_grpc")) {
            Route::ResumeGrpc
        } else {
            Route::Unknown
        },
        _ => Route::Unknown,
    }
}

/// Whether a request must come with a certificate whose name is allowed.
pub fn should_check_cert(method: Method, path: &[u8]) -> (r: bool)
    ensures
        r == checks_cert(method, path@),
{
    proof {
        reveal_strlit("/metrics");
        reveal_strlit("/status");
        reveal_strlit("/config");
        reveal_strlit("/debug/pprof/profile");
    }
    match method {
        Method::Get => !(bytes_eq(path, text("/metrics")) || bytes_eq(path, text("/status"))
            || bytes_eq(path, text("/config")) || bytes_eq(path, text("/debug/pprof/profile"))),
        _ => true,
    }
}

/// The path under which a request is counted.
pub fn path_label(route: Route, path: &[u8]) -> (label: Vec<u8>)
    ensures
        label@ == label_of(route, path@),
{
    proof {
        reveal_strlit("unknown");
    }
    match route {
        Route::Unknown => copy_bytes(text("unknown")),
        _ => copy_bytes(path),
    }
}

} // verus!
