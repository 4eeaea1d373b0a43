//! The consumer side of the filesystem watcher: classification of observed
//! events and the buffer of stale paths awaiting a reload pass.
//!
//! The observer thread itself runs outside the library; it hands over plain
//! event kinds and path values. The two threads share only this buffer,
//! under whatever exclusion the caller puts around it: the operations here
//! state exactly what each of them does to the buffered sequence.

use vstd::prelude::*;

verus! {

/// The kinds of failure the watcher can report.
#[derive(Clone, Copy, Debug, Eq, Hash, Ord, PartialEq, PartialOrd, Structural)]
pub enum AssetsWatcherErrorKind {
    InitializationError,
}

/// The mathematical content of an [`AssetsWatcherError`].
pub struct AssetsWatcherErrorView {
    pub message: Seq<char>,
    pub kind: AssetsWatcherErrorKind,
    pub source: Option<Seq<char>>,
}

/// An error raised while starting the filesystem observer, carrying the
/// rendered message of the underlying cause when there is one.
#[derive(Debug)]
pub struct AssetsWatcherError {
    message: String,
    kind: AssetsWatcherErrorKind,
    source: Option<String>,
}

impl View for AssetsWatcherError {
    type V = AssetsWatcherErrorView;

    closed spec fn view(&self) -> AssetsWatcherErrorView {
        AssetsWatcherErrorView {
            message: self.message@,
            kind: self.kind,
            source: match self.source {
                Some(s) => Some(s@),
                None => None,
            },
        }
    }
}

impl AssetsWatcherError {
    pub fn new(message: &str, kind: AssetsWatcherErrorKind, source: Option<String>) -> (e:
        AssetsWatcherError)
        ensures
            e@.message == message@,
            e@.kind == kind,
            e@.source == (match source {
                Some(s) => Some(s@),
                None => None::<Seq<char>>,
            }),
    {
        AssetsWatcherError { message: message.to_owned(), kind, source }
    }

    pub fn kind(&self) -> (k: AssetsWatcherErrorKind)
        ensures
            k == self@.kind,
    {
        self.kind
    }

    pub fn message(&self) -> (m: String)
        ensures
            m@ == self@.message,
    {
        self.message.clone()
    }
}

/// The kind of a filesystem event, as the observer reports it.
#[derive(Clone, Copy, Debug, Eq, PartialEq, Structural)]
pub enum FsEventKind {
    /// The content of an existing file changed in place.
    ContentModified,
    Created,
    Removed,
    Renamed,
    Other,
}

/// Whether an observed event belongs in the stale-path buffer: only an
/// in-place content modification triggers a hot reload; creation, removal
/// and rename events are deliberately ignored.
pub fn should_buffer_event(kind: FsEventKind) -> (r: bool)
    ensures
        r == (kind is ContentModified),
{
    match kind {
        FsEventKind::ContentModified => true,
        _ => false,
    }
}

/// The ordered buffer of changed paths not yet processed into reloads.
///
/// The observer appends; the consumer takes snapshots, and clears the
/// buffer once it has processed a snapshot. The same path may appear more
/// than once when the observer reports repeated changes before a drain;
/// consumers treat duplicates as idempotent.
pub struct StalePathBuffer {
    paths: Vec<String>,
}

impl View for StalePathBuffer {
    type V = Seq<Seq<char>>;

    closed spec fn view(&self) -> Seq<Seq<char>> {
        self.paths.deep_view()
    }
}

impl StalePathBuffer {
    /// A fresh, empty buffer.
    pub fn new() -> (b: StalePathBuffer)
        ensures
            b@.len() == 0,
    {
        let b = StalePathBuffer { paths: Vec::new() };
        proof {
            assert(b@ =~= Seq::<Seq<char>>::empty());
        }
        b
    }

    /// Appends one changed path; everything already buffered stays, in
    /// order.
    pub fn push_stale_path(&mut self, path: String)
        ensures
            final(self)@ == old(self)@.push(path@),
    {
        self.paths.push(path);
        proof {
            assert(self@ =~= old(self)@.push(path@));
        }
    }

    /// A snapshot of all currently buffered paths, in order. Read-only:
    /// the buffer is left exactly as it was, so draining twice without an
    /// intervening change returns the same contents both times.
    pub fn get_stale_paths(&self) -> (r: Vec<String>)
        ensures
            r.deep_view() == self@,
    {
        let n = self.paths.len();
        let mut out: Vec<String> = Vec::new();
        let mut i: usize = 0;
        proof {
            assert(out.deep_view() =~= self@.take(0));
        }
        while i < n
            invariant
                0 <= i <= n,
                n == self.paths@.len(),
                out.deep_view() == self@.take(i as int),
            decreases n - i,
        {
            let ghost pre = out.deep_view();
            out.push(self.paths[i].clone());
            proof {
                assert(out.deep_view() =~= pre.push(self.paths@[i as int]@));
                assert(self@.take(i + 1).drop_last() =~= self@.take(i as int));
                assert(self@.take(i + 1).last() == self@[i as int]);
                assert(out.deep_view() =~= self@.take(i + 1));
            }
            i = i + 1;
        }
        proof {
            assert(self@.take(n as int) =~= self@);
        }
        out
    }

    /// Empties the buffer. To be invoked by the consumer only after it has
    /// fully processed the previously drained snapshot: a path buffered
    /// after the drain and before the clear is removed with the rest.
    pub fn clear_stale_paths(&mut self)
        ensures
            final(self)@.len() == 0,
    {
        self.paths.clear();
    }
}

} // verus!
