//! Completion subsystem of a line editor: completers that propose replacement
//! text for the word under the cursor, and handlers that pick among the
//! proposals and apply them to a line buffer.

pub mod base;
pub mod circular;
pub mod cmd;
pub mod default_completer;
pub mod line_buffer;
pub mod list;

pub use base::{Completer, CompletionActionHandler, Span};
pub use circular::CircularCompletionHandler;
pub use cmd::{CmdCompletionHandler, CommandLine};
pub use default_completer::DefaultCompleter;
pub use line_buffer::LineBuffer;
pub use list::ListCompletionHandler;
