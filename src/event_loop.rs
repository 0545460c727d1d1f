//! The decisions of the connection's event loop. Each pass looks at the
//! error channel, then the command channel, then the frame channel, taking
//! at most one item from each; the caller does the looking and the work.
use vstd::prelude::*;

verus! {

/// A source the event loop reads from.
#[derive(Clone, Copy, Debug, PartialEq, Eq)]
pub enum Source {
    /// Errors reported by the reader and writer.
    Errors,
    /// Commands handed in by the application.
    Commands,
    /// Frames from the reader.
    Frames,
}

/// What a look at a source, without blocking, found.
#[derive(Clone, Copy, Debug, PartialEq, Eq)]
pub enum Found {
    /// An item was taken.
    Item,
    /// Nothing is there yet.
    Empty,
    /// The source is closed.
    Closed,
}

/// What the event loop does next.
#[derive(Clone, Copy, Debug, PartialEq, Eq)]
pub enum Step {
    /// Look at the source without blocking.
    Poll(Source),
    /// Run the command just taken.
    RunCommand,
    /// Handle the frame just taken.
    HandleFrame,
    /// Block until some source has something, then start a pass.
    Wait,
    /// Leave the loop; `true` where an error ended it.
    Finish(bool),
}

/// The state of the event loop: whether the command channel is still read.
pub struct EventLoop {
    pub commands_open: bool,
}

/// The step after looking at `src` and finding `found`, and whether the
/// command channel is read from then on.
pub open spec fn after_poll_spec(commands_open: bool, src: Source, found: Found) -> (bool, Step) {
    match src {
        Source::Errors => match found {
            Found::Item => (commands_open, Step::Finish(true)),
            Found::Closed => (commands_open, Step::Finish(false)),
            Found::Empty => (
                commands_open,
                if commands_open {
                    Step::Poll(Source::Commands)
                } else {
                    Step::Poll(Source::Frames)
                },
            ),
        },
        Source::Commands => match found {
            Found::Item => (commands_open, Step::RunCommand),
            Found::Empty => (commands_open, Step::Poll(Source::Frames)),
            Found::Closed => (false, Step::Poll(Source::Frames)),
        },
        Source::Frames => match found {
            Found::Item => (commands_open, Step::HandleFrame),
            Found::Empty => (commands_open, Step::Wait),
            Found::Closed => (commands_open, Step::Finish(false)),
        },
    }
}

impl EventLoop {
    /// A loop that reads commands where the application gave a channel.
    pub fn new(has_commands: bool) -> (r: EventLoop)
        ensures
            r.commands_open == has_commands,
    {
        EventLoop { commands_open: has_commands }
    }

    /// A pass starts with the errors.
    pub fn start_pass(&self) -> (r: Step)
        ensures
            r == Step::Poll(Source::Errors),
    {
        Step::Poll(Source::Errors)
    }

    /// The step after looking at `src`: an error, or a closed error or
    /// frame channel, ends the loop; a closed command channel is read no
    /// more; an item is worked on; else the pass goes on to the next source,
    /// and after the frames it waits.
    pub fn after_poll(&mut self, src: Source, found: Found) -> (r: Step)
        ensures
            (final(self).commands_open, r) == after_poll_spec(old(self).commands_open, src, found),
    {
        match src {
            Source::Errors => match found {
                Found::Item => Step::Finish(true),
                Found::Closed => Step::Finish(false),
                Found::Empty => if self.commands_open {
                    Step::Poll(Source::Commands)
                } else {
                    Step::Poll(Source::Frames)
                },
            },
            Source::Commands => match found {
                Found::Item => Step::RunCommand,
                Found::Empty => Step::Poll(Source::Frames),
                Found::Closed => {
                    self.commands_open = false;
                    Step::Poll(Source::Frames)
                },
            },
            Source::Frames => match found {
                Found::Item => Step::HandleFrame,
                Found::Empty => Step::Wait,
                Found::Closed => Step::Finish(false),
            },
        }
    }

    /// After a command has run, the pass goes on to the frames.
    pub fn after_command(&self) -> (r: Step)
        ensures
            r == Step::Poll(Source::Frames),
    {
        Step::Poll(Source::Frames)
    }

    /// After a frame has been handled, the loop waits for more.
    pub fn after_frame(&self) -> (r: Step)
        ensures
            r == Step::Wait,
    {
        Step::Wait
    }
}

/// Whether the connection ends with an error: the one that ended the loop,
/// or one still waiting in the error channel when it ended cleanly.
pub fn ends_with_error(finished_on_error: bool, late: Found) -> (r: bool)
    ensures
        r == (finished_on_error || late == Found::Item),
{
    finished_on_error || match late {
        Found::Item => true,
        _ => false,
    }
}

/// Within a pass the sources are looked at in the order errors, commands,
/// frames: no step after a look at the commands or the frames goes back to
/// an earlier source, and only the start of a pass looks at the errors.
pub proof fn lemma_pass_order(commands_open: bool, src: Source, found: Found)
    ensures
        src != Source::Errors ==> after_poll_spec(commands_open, src, found).1 != Step::Poll(
            Source::Errors,
        ),
        src != Source::Errors ==> after_poll_spec(commands_open, src, found).1 != Step::Poll(
            Source::Commands,
        ),
        src == Source::Errors ==> after_poll_spec(commands_open, src, found).1 != Step::Poll(
            Source::Errors,
        ),
{
}

} // verus!
