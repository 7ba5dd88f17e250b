//! Where the lines come from: a file read at once, the standard input, or a
//! file that grows. Reading is left to the caller; what is kept here is the
//! text cut into lines and the place up to which a growing file was read.

use crate::text::owned;
use vstd::prelude::*;

verus! {

/// The first place at or after `from` that holds a line feed; the length of
/// the text where there is none.
pub open spec fn line_end(text: Seq<char>, from: int) -> int
    decreases text.len() - from,
{
    if 0 <= from < text.len() && text[from] != '\n' {
        line_end(text, from + 1)
    } else {
        from
    }
}

/// A line without the carriage return that ends it.
pub open spec fn without_return(line: Seq<char>) -> Seq<char> {
    if line.len() > 0 && line.last() == '\r' {
        line.drop_last()
    } else {
        line
    }
}

/// The lines of a text from the place `from` on. A line ends with a line
/// feed, or with a carriage return and a line feed; the last line may end
/// with the text, and then keeps a carriage return at its end.
pub open spec fn lines_from(text: Seq<char>, from: int) -> Seq<Seq<char>>
    decreases text.len() - from,
{
    if from < 0 || from >= text.len() {
        Seq::empty()
    } else {
        let end = line_end(text, from);
        if end >= text.len() || end < from {
            seq![text.subrange(from, text.len() as int)]
        } else {
            seq![without_return(text.subrange(from, end))] + lines_from(text, end + 1)
        }
    }
}

/// The lines of a text.
pub open spec fn lines_of(text: Seq<char>) -> Seq<Seq<char>> {
    lines_from(text, 0)
}

/// `str::lines`: the lines of a text, without their line endings.
#[verifier::external_body]
pub(crate) fn split_lines(text: &str) -> (r: Vec<String>)
    ensures
        r.deep_view() == lines_of(text@),
{
    text.lines().map(String::from).collect()
}

/// The lines of a file that was read at once.
#[derive(Debug, Clone)]
pub struct FileSource {
    pub lines: Vec<String>,
}

impl FileSource {
    /// The source of a file with the given content. An empty file has no
    /// lines.
    pub fn from_text(content: &str) -> (r: FileSource)
        ensures
            r.lines.deep_view() == lines_of(content@),
    {
        FileSource { lines: split_lines(content) }
    }

    /// The lines of the file.
    pub fn lines(&self) -> (r: &[String])
        ensures
            r@ == self.lines@,
    {
        self.lines.as_slice()
    }

    /// The number of lines of the file.
    pub fn line_count(&self) -> (r: usize)
        ensures
            r == self.lines.len(),
    {
        self.lines.len()
    }
}

/// The lines that came on the standard input.
#[derive(Debug, Clone)]
pub struct StdinSource {
    pub lines: Vec<String>,
}

impl StdinSource {
    /// The source of an input with the given content.
    pub fn from_text(content: &str) -> (r: StdinSource)
        ensures
            r.lines.deep_view() == lines_of(content@),
    {
        StdinSource { lines: split_lines(content) }
    }

    /// The source of the given lines.
    pub fn from_lines(lines: Vec<String>) -> (r: StdinSource)
        ensures
            r.lines == lines,
    {
        StdinSource { lines }
    }

    /// The lines that came.
    pub fn lines(&self) -> (r: &[String])
        ensures
            r@ == self.lines@,
    {
        self.lines.as_slice()
    }
}

/// A file that grows, and the place up to which it was read.
#[derive(Debug, Clone)]
pub struct FollowableSource {
    pub path: String,
    pub offset: u64,
}

impl FollowableSource {
    /// The source of the file at `path`, read up to `initial_offset`.
    pub fn new(path: &str, initial_offset: u64) -> (r: FollowableSource)
        ensures
            r.path@ == path@,
            r.offset == initial_offset,
    {
        FollowableSource { path: owned(path), offset: initial_offset }
    }

    /// The place from which to read a file that is now `len` bytes long;
    /// none where the file has not grown.
    pub fn pending(&self, len: u64) -> (r: Option<u64>)
        ensures
            r == if len <= self.offset {
                None::<u64>
            } else {
                Some(self.offset)
            },
    {
        if len <= self.offset {
            None
        } else {
            Some(self.offset)
        }
    }

    /// Takes what was read of a file that is now `len` bytes long: the file
    /// counts as read up to `len`, and the text gives the new lines.
    pub fn accept(&mut self, len: u64, text: &str) -> (r: Vec<String>)
        ensures
            final(self).offset == len,
            final(self).path == old(self).path,
            r.deep_view() == lines_of(text@),
    {
        self.offset = len;
        split_lines(text)
    }
}

/// The receiving end of a channel of the standard library.
#[verifier::external_type_specification]
#[verifier::external_body]
#[verifier::reject_recursive_types(T)]
pub struct ExReceiver<T>(std::sync::mpsc::Receiver<T>);

/// What a channel of lines gives when it is asked for a line.
pub enum Received {
    /// A line.
    Line(String),
    /// Nothing for now.
    Empty,
    /// Nothing ever again: the sender is gone.
    Closed,
}

/// `Receiver::try_recv`: a line where one is waiting. What comes depends on
/// the sender.
#[verifier::external_body]
pub(crate) fn poll(receiver: &std::sync::mpsc::Receiver<String>) -> Received {
    match receiver.try_recv() {
        Ok(line) => Received::Line(line),
        Err(std::sync::mpsc::TryRecvError::Empty) => Received::Empty,
        Err(std::sync::mpsc::TryRecvError::Disconnected) => Received::Closed,
    }
}

/// `Receiver::recv_timeout`: a line where one comes within the given time.
/// What comes depends on the sender.
#[verifier::external_body]
pub(crate) fn wait(receiver: &std::sync::mpsc::Receiver<String>, timeout: std::time::Duration) -> Received {
    match receiver.recv_timeout(timeout) {
        Ok(line) => Received::Line(line),
        Err(std::sync::mpsc::RecvTimeoutError::Timeout) => Received::Empty,
        Err(std::sync::mpsc::RecvTimeoutError::Disconnected) => Received::Closed,
    }
}

/// `Duration::from_millis`: a span of so many milliseconds.
#[verifier::external_body]
pub(crate) fn millis(n: u64) -> std::time::Duration {
    std::time::Duration::from_millis(n)
}

/// The milliseconds without a line after which a burst of lines counts as
/// over.
pub const BURST_GAP_MILLIS: u64 = 10;

/// The lines gathered so far, with what the channel gave next: a line joins
/// them, anything else leaves them as they are.
pub open spec fn gathered(lines: Seq<String>, got: Received) -> Seq<String> {
    match got {
        Received::Line(line) => lines.push(line),
        _ => lines,
    }
}

/// Takes what the channel gave: a line joins `lines`, and more may follow;
/// anything else ends the taking.
pub fn gather(lines: &mut Vec<String>, got: Received) -> (more: bool)
    ensures
        more == (got is Line),
        final(lines)@ == gathered(old(lines)@, got),
{
    match got {
        Received::Line(line) => {
            lines.push(line);
            true
        },
        _ => false,
    }
}

/// The standard input as a channel of lines, read in the background.
pub struct FollowableStdinSource {
    pub receiver: std::sync::mpsc::Receiver<String>,
    /// Whether the input has ended.
    pub closed: bool,
}

impl FollowableStdinSource {
    /// The source that takes its lines from the given channel, with its
    /// input not yet at an end.
    pub fn from_receiver(receiver: std::sync::mpsc::Receiver<String>) -> (r: FollowableStdinSource)
        ensures
            r.receiver == receiver,
            !r.closed,
    {
        FollowableStdinSource { receiver, closed: false }
    }

    /// Takes what the channel gave, and notes the end of the input: a line
    /// joins `lines`, and more may follow; anything else ends the taking,
    /// and a channel whose sender is gone closes the source.
    pub fn take(&mut self, lines: &mut Vec<String>, got: Received) -> (more: bool)
        ensures
            more == (got is Line),
            final(lines)@ == gathered(old(lines)@, got),
            final(self).closed == (old(self).closed || got is Closed),
            final(self).receiver == old(self).receiver,
    {
        if let Received::Closed = got {
            self.closed = true;
        }
        gather(lines, got)
    }

    /// The first lines: waits up to `timeout` for a line, then takes the
    /// lines that follow it without a gap. Where the input has ended before
    /// a line came, the source is closed, and no line is given. Which lines
    /// come is for the sender to decide: each answer of the channel is
    /// taken as `take` and `gather` say.
    pub fn recv_initial(&mut self, timeout: std::time::Duration) -> (r: Vec<String>)
        ensures
            final(self).receiver == old(self).receiver,
            old(self).closed ==> final(self).closed,
            final(self).closed && !old(self).closed ==> r.len() == 0,
    {
        let mut lines: Vec<String> = Vec::new();
        let first = wait(&self.receiver, timeout);
        let mut more = self.take(&mut lines, first);
        while more && lines.len() < usize::MAX
            invariant
                self.receiver == old(self).receiver,
                old(self).closed ==> self.closed,
                self.closed && !old(self).closed ==> lines.len() == 0 && !more,
            decreases (if more { 1int } else { 0int }) + usize::MAX - lines.len(),
        {
            let next = wait(&self.receiver, millis(BURST_GAP_MILLIS));
            more = gather(&mut lines, next);
        }
        lines
    }

    /// The lines that are waiting, without waiting for more. A closed
    /// source gives none and stays closed; a source whose input has ended
    /// is closed. Which lines wait is for the sender to decide: each answer
    /// of the channel is taken as `take` says.
    pub fn read_new_lines(&mut self) -> (r: Vec<String>)
        ensures
            final(self).receiver == old(self).receiver,
            old(self).closed ==> final(self).closed && r.len() == 0,
    {
        let mut lines: Vec<String> = Vec::new();
        if self.closed {
            return lines;
        }
        let mut more = true;
        while more && lines.len() < usize::MAX
            invariant
                self.receiver == old(self).receiver,
                !old(self).closed,
            decreases (if more { 1int } else { 0int }) + usize::MAX - lines.len(),
        {
            let got = poll(&self.receiver);
            more = self.take(&mut lines, got);
        }
        lines
    }

    /// Whether the input has ended.
    pub fn is_closed(&self) -> (r: bool)
        ensures
            r == self.closed,
    {
        self.closed
    }
}

} // verus!
