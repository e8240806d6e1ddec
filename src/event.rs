use vstd::prelude::*;
use crate::model::connection::Connection;
use crate::model::line::Line;
use crate::model::prompt_mask::PromptMask;

verus! {

/// How the client was asked to quit.
#[derive(Debug, PartialEq, Eq, Clone, Copy)]
pub enum QuitMethod {
    CtrlC,
    Script,
    System,
}

/// A message on the event bus.
#[derive(Debug, PartialEq, Eq, Clone)]
pub enum Event {
    Info(String),
    ServerInput(Line),
    Connect(Connection),
    Disconnect,
    Reconnect,
    StartLogging(String, bool),
    StopLogging,
    LoadScript(String),
    ResetScript,
    Quit(QuitMethod),
    ShowHelp(String, bool),
    FindBackward(String),
    SetPromptInput(String),
    SetPromptInputCursor(usize),
    SetPromptMask(PromptMask),
    EnableProto(u8),
    ProtoSubnegSend(u8, Vec<u8>),
}

/// A change to the screen layout that a script asked for, for the renderer.
#[derive(Debug, PartialEq, Eq, Clone)]
pub enum UiEvent {
    /// Lines given to the status area.
    StatusAreaHeight(u16),
    /// Text for one line of the status area.
    StatusLine(usize, String),
}

/// `e` is an `Info` event carrying `text`.
pub open spec fn is_info(e: Event, text: Seq<char>) -> bool {
    match e {
        Event::Info(s) => s@ == text,
        _ => false,
    }
}

} // verus!
