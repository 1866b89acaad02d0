use vstd::prelude::*;
use std::collections::HashMap;

verus! {

/// What a child process left behind when it ran to completion.
#[derive(Debug)]
pub struct CommandOutput {
    pub code: Option<i32>,
    pub signal: Option<i32>,
    pub stdout: String,
    pub stderr: String,
}

/// The kind of an event published for a stream.
#[derive(Debug, Clone, Copy, PartialEq, Eq, Structural)]
pub enum EventType {
    Stdout,
    Stderr,
    Terminated,
    Error,
}

impl EventType {
    /// A terminal kind ends its stream: nothing follows it.
    pub open spec fn is_terminal(self) -> bool {
        self == EventType::Terminated || self == EventType::Error
    }
}

/// One event published on a stream's channel.
#[derive(Debug, Clone)]
pub struct StreamEvent {
    pub stream_id: String,
    pub event_type: EventType,
    pub data: String,
    pub code: Option<i32>,
    pub signal: Option<i32>,
}

/// Mathematical value of a [`StreamEvent`].
pub struct StreamEventView {
    pub stream_id: Seq<char>,
    pub event_type: EventType,
    pub data: Seq<char>,
    pub code: Option<i32>,
    pub signal: Option<i32>,
}

impl View for StreamEvent {
    type V = StreamEventView;

    open spec fn view(&self) -> StreamEventView {
        StreamEventView {
            stream_id: self.stream_id@,
            event_type: self.event_type,
            data: self.data@,
            code: self.code,
            signal: self.signal,
        }
    }
}

/// The identifier handed back when a stream starts.
#[derive(Debug)]
pub struct StreamInfo {
    pub stream_id: String,
}

/// Everything needed to launch an application and its optional pre-launch command.
#[derive(Debug)]
pub struct LaunchData {
    pub game_id: String,
    pub game_parameters: Vec<String>,
    pub game_executable: String,
    pub game_directory: String,
    pub egl_parameters: Vec<String>,
    pub launch_command: Vec<String>,
    pub working_directory: String,
    pub user_parameters: Vec<String>,
    pub environment: HashMap<String, String>,
    pub pre_launch_command: String,
    pub pre_launch_wait: bool,
}

/// Liveness of a tracked process.
#[derive(Debug, Clone, Copy, PartialEq, Eq, Structural)]
pub enum AppState {
    Running,
    Stopped,
}

/// A liveness transition of a tracked process.
#[derive(Debug, Clone)]
pub struct AppStateEvent {
    pub pid: u32,
    pub app_id: String,
    pub state: AppState,
}

/// Mathematical value of an [`AppStateEvent`].
pub struct AppStateEventView {
    pub pid: u32,
    pub app_id: Seq<char>,
    pub state: AppState,
}

impl View for AppStateEvent {
    type V = AppStateEventView;

    open spec fn view(&self) -> AppStateEventView {
        AppStateEventView { pid: self.pid, app_id: self.app_id@, state: self.state }
    }
}

/// A process whose liveness is observed.
#[derive(Debug, Clone)]
pub struct TrackedApp {
    pub pid: u32,
    pub app_id: String,
    pub is_running: bool,
}

/// Size and free space of a file system, in bytes.
#[derive(Debug)]
pub struct DiskSpace {
    pub total: u64,
    pub available: u64,
}

} // verus!
