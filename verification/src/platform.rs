//! The chat platform as the reconciliation sees it: thread identifiers, the
//! text of an update, and a board that keeps threads and posts in memory.

use crate::errors::PlatformError;
use vstd::prelude::*;
use vstd::string::StringExecFns;

verus! {

/// The channel in which the announcements are posted and the threads opened.
pub const HUB_CHANNEL_ID: u64 = 1092090816178171935;

/// The signed number under which the store keeps a thread identifier: the
/// same 64 bits, read as two's complement.
pub open spec fn spec_stored_thread_id(thread_id: u64) -> i64 {
    if thread_id < 0x8000_0000_0000_0000 {
        thread_id as i64
    } else {
        (thread_id - 0x1_0000_0000_0000_0000) as i64
    }
}

/// The thread identifier that the store keeps under a signed number.
pub open spec fn spec_platform_thread_id(stored: i64) -> u64 {
    if stored >= 0 {
        stored as u64
    } else {
        (stored + 0x1_0000_0000_0000_0000) as u64
    }
}

/// The signed number under which the store keeps `thread_id`.
pub fn stored_thread_id(thread_id: u64) -> (stored: i64)
    ensures
        stored == spec_stored_thread_id(thread_id),
{
    if thread_id < 0x8000_0000_0000_0000 {
        thread_id as i64
    } else {
        let low: i64 = (thread_id - 0x8000_0000_0000_0000) as i64;
        low + i64::MIN
    }
}

/// The thread identifier that the store keeps as `stored`.
pub fn platform_thread_id(stored: i64) -> (thread_id: u64)
    ensures
        thread_id == spec_platform_thread_id(stored),
{
    if stored >= 0 {
        stored as u64
    } else {
        let low: u64 = (stored - i64::MIN) as u64;
        low + 0x8000_0000_0000_0000
    }
}

/// Storing a thread identifier and reading it back gives the identifier,
/// and the other way round; so two threads are never stored under one
/// number.
pub proof fn law_thread_id_round_trip(thread_id: u64, stored: i64)
    ensures
        spec_platform_thread_id(spec_stored_thread_id(thread_id)) == thread_id,
        spec_stored_thread_id(spec_platform_thread_id(stored)) == stored,
{
}

/// The failure that a refused platform call stands for, by the status of
/// the answer, if there was one: `ThreadNotFound` where a call into a thread
/// was answered 404, `Rejected` for the other answers from 400 to 499 but
/// 401, and `Unavailable` for everything else, 401 and no answer included.
pub open spec fn spec_platform_failure(status: Option<u16>, in_thread: bool) -> PlatformError {
    match status {
        Some(code) => if code == 404 && in_thread {
            PlatformError::ThreadNotFound
        } else if 400 <= code < 500 && code != 401 {
            PlatformError::Rejected
        } else {
            PlatformError::Unavailable
        },
        None => PlatformError::Unavailable,
    }
}

/// The failure that a refused platform call stands for; `in_thread` says
/// that the call went into a thread.
pub fn platform_failure(status: Option<u16>, in_thread: bool) -> (failure: PlatformError)
    ensures
        failure == spec_platform_failure(status, in_thread),
{
    match status {
        Some(code) => if code == 404 && in_thread {
            PlatformError::ThreadNotFound
        } else if 400 <= code && code < 500 && code != 401 {
            PlatformError::Rejected
        } else {
            PlatformError::Unavailable
        },
        None => PlatformError::Unavailable,
    }
}

/// The text that is posted into the thread of a division that has changed.
pub open spec fn spec_update_content() -> Seq<char> {
    "this is some contents"@
}

/// The text that is posted into the thread of a division that has changed.
pub fn update_content() -> (content: String)
    ensures
        content@ == spec_update_content(),
{
    String::from_str("this is some contents")
}

/// A message in a thread.
#[derive(Clone, Debug, PartialEq, Eq)]
pub struct Post {
    pub thread_id: u64,
    pub content: String,
}

/// What a [`Post`] holds, with its text as a sequence.
pub struct PostView {
    pub thread_id: u64,
    pub content: Seq<char>,
}

impl View for Post {
    type V = PostView;

    open spec fn view(&self) -> PostView {
        PostView { thread_id: self.thread_id, content: self.content@ }
    }
}

/// The threads of the hub channel and what was posted into them.
///
/// A thread's identifier is its position in `titles`: threads are numbered
/// from 0 in the order in which they were opened.
pub struct BoardView {
    pub titles: Seq<Seq<char>>,
    pub posts: Seq<PostView>,
}

impl BoardView {
    /// The board without threads.
    pub open spec fn empty() -> BoardView {
        BoardView { titles: Seq::empty(), posts: Seq::empty() }
    }

    /// The thread exists.
    pub open spec fn has_thread(self, thread_id: u64) -> bool {
        thread_id < self.titles.len()
    }

    /// What opening a thread does: the board afterwards and the identifier
    /// of the new thread.
    pub open spec fn open(self, title: Seq<char>) -> (BoardView, u64) {
        (BoardView { titles: self.titles.push(title), ..self }, self.titles.len() as u64)
    }

    /// What posting does: the board afterwards and the answer. A thread that
    /// does not exist gives `ThreadNotFound` and the board stays as it was.
    pub open spec fn post(self, thread_id: u64, content: Seq<char>) -> (
        BoardView,
        Result<(), PlatformError>,
    ) {
        if self.has_thread(thread_id) {
            (BoardView { posts: self.posts.push(PostView { thread_id, content }), ..self }, Ok(()))
        } else {
            (self, Err(PlatformError::ThreadNotFound))
        }
    }
}

/// The views of a sequence of texts, in order.
pub open spec fn text_views(texts: Seq<String>) -> Seq<Seq<char>> {
    Seq::new(texts.len(), |i: int| texts[i]@)
}

/// The views of a sequence of posts, in order.
pub open spec fn post_views(posts: Seq<Post>) -> Seq<PostView> {
    Seq::new(posts.len(), |i: int| posts[i]@)
}

/// A board that keeps its threads and posts in memory.
pub struct ThreadBoard {
    titles: Vec<String>,
    posts: Vec<Post>,
}

impl View for ThreadBoard {
    type V = BoardView;

    closed spec fn view(&self) -> BoardView {
        BoardView { titles: text_views(self.titles@), posts: post_views(self.posts@) }
    }
}

impl ThreadBoard {
    /// A board without threads.
    pub fn new() -> (board: ThreadBoard)
        ensures
            board@ == BoardView::empty(),
    {
        let board = ThreadBoard { titles: Vec::new(), posts: Vec::new() };
        assert(board@.titles =~= Seq::empty());
        assert(board@.posts =~= Seq::empty());
        board
    }

    /// The number of threads.
    pub fn thread_count(&self) -> (n: usize)
        ensures
            n == self@.titles.len(),
    {
        self.titles.len()
    }

    /// The number of posts, over all threads.
    pub fn post_count(&self) -> (n: usize)
        ensures
            n == self@.posts.len(),
    {
        self.posts.len()
    }

    /// The title of a thread.
    pub fn title_of(&self, thread_id: u64) -> (title: Option<String>)
        ensures
            match title {
                Some(text) => self@.has_thread(thread_id) && text@ == self@.titles[thread_id as int],
                None => !self@.has_thread(thread_id),
            },
    {
        if thread_id < self.titles.len() as u64 {
            Some(self.titles[thread_id as usize].clone())
        } else {
            None
        }
    }

    /// The post at position `index`, counting from the oldest.
    pub fn post_at(&self, index: usize) -> (post: Option<Post>)
        ensures
            match post {
                Some(p) => index < self@.posts.len() && p@ == self@.posts[index as int],
                None => index >= self@.posts.len(),
            },
    {
        if index < self.posts.len() {
            Some(
                Post {
                    thread_id: self.posts[index].thread_id,
                    content: self.posts[index].content.clone(),
                },
            )
        } else {
            None
        }
    }

    /// Opens a thread named `title` and returns its identifier.
    pub fn create_thread(&mut self, title: &str) -> (thread_id: u64)
        ensures
            (final(self)@, thread_id) == old(self)@.open(title@),
    {
        let thread_id = self.titles.len() as u64;
        self.titles.push(String::from_str(title));
        assert(final(self)@.titles =~= old(self)@.titles.push(title@));
        thread_id
    }

    /// Posts `content` into a thread.
    pub fn post_update(&mut self, thread_id: u64, content: &str) -> (posted: Result<
        (),
        PlatformError,
    >)
        ensures
            (final(self)@, posted) == old(self)@.post(thread_id, content@),
    {
        if thread_id < self.titles.len() as u64 {
            self.posts.push(Post { thread_id, content: String::from_str(content) });
            assert(final(self)@.posts =~= old(self)@.posts.push(
                PostView { thread_id, content: content@ },
            ));
            Ok(())
        } else {
            Err(PlatformError::ThreadNotFound)
        }
    }
}

} // verus!
