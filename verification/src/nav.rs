//! The stack of views, and the routing of events to it.
//!
//! A session starts at the list of boards. Confirming a board opens its
//! threads on top, confirming a thread opens its posts on top of those, and
//! cancelling takes the top view away again. Only the top view reacts to
//! input; what lies below stays exactly as it was left.
//!
//! Nothing is fetched here. A confirmed selection is answered with a request
//! for data, and the data comes back as an event of its own.

use crate::boards::{board_entries, board_entry_models, board_models, Board, BoardModel};
use crate::error::SessionError;
use crate::filter::{FilterableList, ListModel};
use crate::paint::Palette;
use crate::posts::{format_post, post_models, post_text, Post, PostModel};
use crate::service::{posts_address, posts_url, threads_address, threads_url};
use crate::text::{is_number, number_value, parse_number};
use crate::threads::{thread_entries, thread_entry_models, thread_models, Thread, ThreadModel};
use vstd::prelude::*;
use vstd::string::*;

verus! {

/// One level of the stack.
pub enum ViewFrame {
    /// The boards of the service.
    Boards(FilterableList),
    /// The threads of a board: the board's id, and the threads.
    Threads(String, FilterableList),
    /// The posts of a thread: the board's id, the thread's id, and the
    /// posts as blocks of display text.
    Posts(String, String, Vec<String>),
}

/// A level of the stack as mathematics sees it.
pub enum FrameModel {
    Boards(ListModel),
    Threads(Seq<char>, ListModel),
    Posts(Seq<char>, Seq<char>, Seq<Seq<char>>),
}

/// What a confirmed selection asks for.
#[derive(Debug, PartialEq, Eq)]
pub enum Request {
    /// The threads of the board with this id.
    Threads(String),
    /// The posts of the thread with this board id and this thread id.
    Posts(String, String),
}

/// A request as character sequences.
pub enum RequestModel {
    Threads(Seq<char>),
    Posts(Seq<char>, Seq<char>),
}

/// What happened, for the session to react to.
pub enum Event {
    /// The filter text of the top view was edited; this is its new value.
    Edit(String),
    /// The entry at this position of the top view's shown part was
    /// confirmed.
    Confirm(usize),
    /// The cancel key.
    Cancel,
    /// The quit action.
    Quit,
    /// The threads asked for by confirming this position have arrived.
    Threads(usize, Vec<Thread>),
    /// The posts asked for by confirming this position have arrived.
    Posts(usize, Vec<Post>),
    /// What was asked for could not be had.
    Failed(SessionError),
}

/// An event as mathematics sees it.
pub enum EventModel {
    Edit(Seq<char>),
    Confirm(usize),
    Cancel,
    Quit,
    Threads(usize, Seq<ThreadModel>),
    Posts(usize, Seq<PostModel>),
    Failed(SessionError),
}

/// What the program around the session has to do next.
#[derive(Debug, PartialEq, Eq)]
pub enum Action {
    /// The top view has changed where it stands: show it as it now is.
    Refresh,
    /// A view has been put on top: show it over the others.
    Open,
    /// The top view has been taken away: show what lay below it.
    Close,
    /// Fetch what is asked for and hand it back as an event.
    Fetch(Request),
    /// End the session.
    Exit,
    /// End the session with this failure.
    Abort(SessionError),
}

/// An action as mathematics sees it.
pub enum ActionModel {
    Refresh,
    Open,
    Close,
    Fetch(RequestModel),
    Exit,
    Abort(SessionError),
}

impl View for ViewFrame {
    type V = FrameModel;

    open spec fn view(&self) -> FrameModel {
        match *self {
            ViewFrame::Boards(list) => FrameModel::Boards(list@),
            ViewFrame::Threads(board, list) => FrameModel::Threads(board@, list@),
            ViewFrame::Posts(board, thread, blocks) => FrameModel::Posts(
                board@,
                thread@,
                blocks@.map_values(|b: String| b@),
            ),
        }
    }
}

impl View for Request {
    type V = RequestModel;

    open spec fn view(&self) -> RequestModel {
        match *self {
            Request::Threads(board) => RequestModel::Threads(board@),
            Request::Posts(board, thread) => RequestModel::Posts(board@, thread@),
        }
    }
}

impl View for Event {
    type V = EventModel;

    open spec fn view(&self) -> EventModel {
        match *self {
            Event::Edit(text) => EventModel::Edit(text@),
            Event::Confirm(index) => EventModel::Confirm(index),
            Event::Cancel => EventModel::Cancel,
            Event::Quit => EventModel::Quit,
            Event::Threads(index, threads) => EventModel::Threads(index, thread_models(threads@)),
            Event::Posts(index, posts) => EventModel::Posts(index, post_models(posts@)),
            Event::Failed(e) => EventModel::Failed(e),
        }
    }
}

impl View for Action {
    type V = ActionModel;

    open spec fn view(&self) -> ActionModel {
        match *self {
            Action::Refresh => ActionModel::Refresh,
            Action::Open => ActionModel::Open,
            Action::Close => ActionModel::Close,
            Action::Fetch(request) => ActionModel::Fetch(request@),
            Action::Exit => ActionModel::Exit,
            Action::Abort(e) => ActionModel::Abort(e),
        }
    }
}

impl RequestModel {
    /// Where what is asked for is found. The posts of a thread are found
    /// under the thread's number, so a thread id that is no number, or one
    /// too large for the machine, has no address: the service has sent
    /// something that is not of the expected shape.
    pub open spec fn address(self) -> Result<Seq<char>, SessionError> {
        match self {
            RequestModel::Threads(board) => Ok(threads_address(board)),
            RequestModel::Posts(board, thread) => if is_number(thread) && number_value(thread)
                <= usize::MAX {
                Ok(posts_address(board, number_value(thread) as usize))
            } else {
                Err(SessionError::DecodeFailure)
            },
        }
    }
}

impl Request {
    /// Where what is asked for is found.
    pub fn address(&self) -> (res: Result<String, SessionError>)
        ensures
            match res {
                Ok(url) => self@.address() == Ok::<Seq<char>, SessionError>(url@),
                Err(e) => self@.address() == Err::<Seq<char>, SessionError>(e),
            },
    {
        match self {
            Request::Threads(board) => Ok(threads_url(board.as_str())),
            Request::Posts(board, thread) => match parse_number(thread.as_str()) {
                Some(number) => Ok(posts_url(board.as_str(), number)),
                None => Err(SessionError::DecodeFailure),
            },
        }
    }
}

impl ViewFrame {
    /// The list of the frame, where it has one, is sound.
    pub open spec fn wf(&self) -> bool {
        match *self {
            ViewFrame::Boards(list) => list.wf(),
            ViewFrame::Threads(_, list) => list.wf(),
            ViewFrame::Posts(_, _, _) => true,
        }
    }
}

impl FrameModel {
    /// The frame under another filter text. A frame of posts has no filter
    /// and stays as it is.
    pub open spec fn with_needle(self, needle: Seq<char>) -> FrameModel {
        match self {
            FrameModel::Boards(list) => FrameModel::Boards(list.with_needle(needle)),
            FrameModel::Threads(board, list) => FrameModel::Threads(
                board,
                list.with_needle(needle),
            ),
            FrameModel::Posts(_, _, _) => self,
        }
    }

    /// What confirming position `index` of the frame asks for. A frame of
    /// posts has nothing to select.
    pub open spec fn request(self, index: usize) -> Result<RequestModel, SessionError> {
        match self {
            FrameModel::Boards(list) => match list.key_at(index as int) {
                Some(board) => Ok(RequestModel::Threads(board)),
                None => Err(SessionError::SelectionOutOfRange),
            },
            FrameModel::Threads(board, list) => match list.key_at(index as int) {
                Some(thread) => Ok(RequestModel::Posts(board, thread)),
                None => Err(SessionError::SelectionOutOfRange),
            },
            FrameModel::Posts(_, _, _) => Err(SessionError::SelectionOutOfRange),
        }
    }

    /// The frame was opened by a confirmed selection in `parent`: it is of
    /// the kind that follows the parent's, and its scope is the key of an
    /// entry that the parent shows.
    pub open spec fn follows(self, parent: FrameModel) -> bool {
        match self {
            FrameModel::Boards(_) => false,
            FrameModel::Threads(board, _) => parent.request_yields(RequestModel::Threads(board)),
            FrameModel::Posts(board, thread, _) => parent.request_yields(
                RequestModel::Posts(board, thread),
            ),
        }
    }

    /// Confirming some position of the frame asks for `request`.
    pub open spec fn request_yields(self, request: RequestModel) -> bool {
        exists|index: usize| self.request(index) == Ok::<RequestModel, SessionError>(request)
    }
}

/// The frame of the boards that a session starts with: the board ids in
/// ascending order, with no filter text yet.
pub open spec fn boards_frame(boards: Seq<BoardModel>) -> FrameModel {
    FrameModel::Boards(ListModel { entries: board_entry_models(boards), needle: Seq::empty() })
}

/// The frame of the threads of `board`: the threads in ascending order of
/// their ids, with no filter text yet.
pub open spec fn threads_frame(board: Seq<char>, threads: Seq<ThreadModel>) -> FrameModel {
    FrameModel::Threads(
        board,
        ListModel { entries: thread_entry_models(threads), needle: Seq::empty() },
    )
}

/// The frame of the posts of `thread`: the posts in the order they came
/// in, each rendered without colour at `width` columns.
pub open spec fn posts_frame(
    board: Seq<char>,
    thread: Seq<char>,
    posts: Seq<PostModel>,
    width: usize,
) -> FrameModel {
    FrameModel::Posts(board, thread, posts.map_values(|p: PostModel| post_text(p, width)))
}

/// The models of a run of frames.
pub open spec fn frame_models(frames: Seq<ViewFrame>) -> Seq<FrameModel> {
    frames.map_values(|f: ViewFrame| f@)
}

/// A stack of views as mathematics sees it: the frames from the root to
/// the top, and the column width that posts are rendered at.
pub struct NavModel {
    pub frames: Seq<FrameModel>,
    pub width: usize,
}

impl NavModel {
    /// The stack is not empty, its root is the frame of the boards, and
    /// every other frame was opened from the one below it.
    pub open spec fn well_shaped(self) -> bool {
        &&& self.frames.len() > 0
        &&& self.frames[0] is Boards
        &&& forall|i: int|
            0 < i < self.frames.len() ==> (#[trigger] self.frames[i]).follows(self.frames[i - 1])
    }

    /// The stack that a session starts with.
    pub open spec fn start(boards: Seq<BoardModel>, width: usize) -> NavModel {
        NavModel { frames: seq![boards_frame(boards)], width: width }
    }

    /// The frame that reacts to input.
    pub open spec fn top(self) -> FrameModel {
        self.frames.last()
    }

    /// The stack with `frame` in place of its top frame.
    pub open spec fn with_top(self, frame: FrameModel) -> NavModel {
        NavModel { frames: self.frames.drop_last().push(frame), width: self.width }
    }

    /// The stack with `frame` on top.
    pub open spec fn pushed(self, frame: FrameModel) -> NavModel {
        NavModel { frames: self.frames.push(frame), width: self.width }
    }

    /// The stack after an edit of the filter text.
    pub open spec fn edited(self, needle: Seq<char>) -> NavModel {
        self.with_top(self.top().with_needle(needle))
    }

    /// The stack after the threads for the selection at `index` came in.
    /// They are taken only by a frame of boards that shows such a
    /// position.
    pub open spec fn entered_threads(self, index: usize, threads: Seq<ThreadModel>) -> Option<
        NavModel,
    > {
        match self.top().request(index) {
            Ok(RequestModel::Threads(board)) => Some(self.pushed(threads_frame(board, threads))),
            _ => None,
        }
    }

    /// The stack after the posts for the selection at `index` came in.
    /// They are taken only by a frame of threads that shows such a
    /// position.
    pub open spec fn entered_posts(self, index: usize, posts: Seq<PostModel>) -> Option<NavModel> {
        match self.top().request(index) {
            Ok(RequestModel::Posts(board, thread)) => Some(
                self.pushed(posts_frame(board, thread, posts, self.width)),
            ),
            _ => None,
        }
    }

    /// The stack after a cancel: without its top frame, or, at the root,
    /// as it is.
    pub open spec fn left(self) -> NavModel {
        if self.frames.len() > 1 {
            NavModel { frames: self.frames.drop_last(), width: self.width }
        } else {
            self
        }
    }

    /// The stack after an event, and what is to be done next.
    pub open spec fn step(self, event: EventModel) -> (NavModel, ActionModel) {
        match event {
            EventModel::Edit(needle) => (self.edited(needle), ActionModel::Refresh),
            EventModel::Confirm(index) => match self.top().request(index) {
                Ok(request) => (self, ActionModel::Fetch(request)),
                Err(e) => (self, ActionModel::Abort(e)),
            },
            EventModel::Cancel => if self.frames.len() > 1 {
                (self.left(), ActionModel::Close)
            } else {
                (self, ActionModel::Exit)
            },
            EventModel::Quit => (self, ActionModel::Exit),
            EventModel::Threads(index, threads) => match self.entered_threads(index, threads) {
                Some(next) => (next, ActionModel::Open),
                None => (self, ActionModel::Abort(SessionError::SelectionOutOfRange)),
            },
            EventModel::Posts(index, posts) => match self.entered_posts(index, posts) {
                Some(next) => (next, ActionModel::Open),
                None => (self, ActionModel::Abort(SessionError::SelectionOutOfRange)),
            },
            EventModel::Failed(e) => (self, ActionModel::Abort(e)),
        }
    }
}

/// The stack of views of a session.
pub struct NavStack {
    frames: Vec<ViewFrame>,
    width: usize,
}

impl View for NavStack {
    type V = NavModel;

    closed spec fn view(&self) -> NavModel {
        NavModel { frames: frame_models(self.frames@), width: self.width }
    }
}

impl NavStack {
    /// The representation is sound: every list is, and the stack has its
    /// shape.
    pub closed spec fn wf(&self) -> bool {
        &&& forall|i: int| 0 <= i < self.frames@.len() ==> (#[trigger] self.frames@[i]).wf()
        &&& self@.well_shaped()
    }

    /// What `wf` says of the shape.
    pub proof fn lemma_wf_shape(&self)
        requires
            self.wf(),
        ensures
            self@.well_shaped(),
    {
    }

    /// A stack at the boards. Posts will be rendered at `width` columns.
    pub fn new(boards: &Vec<Board>, width: usize) -> (nav: NavStack)
        ensures
            nav.wf(),
            nav@ == NavModel::start(board_models(boards@), width),
    {
        let list = FilterableList::new(board_entries(boards));
        let mut frames: Vec<ViewFrame> = Vec::new();
        frames.push(ViewFrame::Boards(list));
        let nav = NavStack { frames, width };
        assert(nav@.frames =~= seq![boards_frame(board_models(boards@))]);
        nav
    }

    /// How many frames the stack has.
    pub fn depth(&self) -> (depth: usize)
        ensures
            depth == self@.frames.len(),
    {
        self.frames.len()
    }

    /// The column width that posts are rendered at.
    pub fn width(&self) -> (width: usize)
        ensures
            width == self@.width,
    {
        self.width
    }

    /// The frame that reacts to input.
    pub fn top(&self) -> (frame: &ViewFrame)
        requires
            self.wf(),
        ensures
            frame@ == self@.top(),
            frame.wf(),
    {
        &self.frames[self.frames.len() - 1]
    }

    /// Replaces the filter text of the top frame. The frames below are not
    /// touched, and a frame of posts stays as it is.
    pub fn edit(&mut self, needle: &str)
        requires
            old(self).wf(),
        ensures
            final(self).wf(),
            final(self)@ == old(self)@.edited(needle@),
    {
        let ghost before = self.frames@;
        let frame = self.frames.pop().unwrap();
        let frame = match frame {
            ViewFrame::Boards(list) => {
                let mut list = list;
                list.set_filter(needle);
                ViewFrame::Boards(list)
            },
            ViewFrame::Threads(board, list) => {
                let mut list = list;
                list.set_filter(needle);
                ViewFrame::Threads(board, list)
            },
            ViewFrame::Posts(board, thread, blocks) => ViewFrame::Posts(board, thread, blocks),
        };
        assert(frame@ == before.last()@.with_needle(needle@));
        let ghost top = frame@;
        self.frames.push(frame);
        proof {
            assert(self@.frames =~= frame_models(before).drop_last().push(top));
            lemma_with_top_keeps_shape(old(self)@, needle@);
            assert forall|i: int| 0 <= i < self.frames@.len() implies (#[trigger] self.frames@[
                i
            ]).wf() by {
                if i < before.len() - 1 {
                    assert(self.frames@[i] == before[i]);
                }
            }
        }
    }

    /// What confirming position `index` of the top frame asks for. The
    /// stack stays as it is.
    pub fn confirm(&self, index: usize) -> (res: Result<Request, SessionError>)
        requires
            self.wf(),
        ensures
            match res {
                Ok(request) => self@.top().request(index) == Ok::<RequestModel, SessionError>(
                    request@,
                ),
                Err(e) => self@.top().request(index) == Err::<RequestModel, SessionError>(e),
            },
    {
        let top = self.top();
        match top {
            ViewFrame::Boards(list) => match list.select(index) {
                Ok(board) => Ok(Request::Threads(board)),
                Err(e) => Err(e),
            },
            ViewFrame::Threads(board, list) => match list.select(index) {
                Ok(thread) => Ok(Request::Posts(board.clone(), thread)),
                Err(e) => Err(e),
            },
            ViewFrame::Posts(_, _, _) => Err(SessionError::SelectionOutOfRange),
        }
    }

    /// Opens the threads of the board at position `index` of the top frame,
    /// which must be the frame of the boards and show such a position;
    /// else nothing changes.
    pub fn open_threads(&mut self, index: usize, threads: &Vec<Thread>) -> (res: Result<
        (),
        SessionError,
    >)
        requires
            old(self).wf(),
        ensures
            final(self).wf(),
            match res {
                Ok(_) => old(self)@.entered_threads(index, thread_models(threads@)) == Some(
                    final(self)@,
                ),
                Err(e) => old(self)@.entered_threads(index, thread_models(threads@)).is_none()
                    && final(self)@ == old(self)@ && e == SessionError::SelectionOutOfRange,
            },
    {
        match self.confirm(index) {
            Ok(Request::Threads(board)) => {
                let list = FilterableList::new(thread_entries(threads));
                let frame = ViewFrame::Threads(board, list);
                proof {
                    lemma_pushed_keeps_shape(self@, frame@, index);
                }
                let ghost before = self.frames@;
                self.frames.push(frame);
                assert(self@.frames =~= frame_models(before).push(frame@));
                Ok(())
            },
            _ => Err(SessionError::SelectionOutOfRange),
        }
    }

    /// Opens the posts of the thread at position `index` of the top frame,
    /// which must be a frame of threads and show such a position; else
    /// nothing changes. The posts are rendered here, all of them, in the
    /// order in which they came.
    pub fn open_posts(&mut self, index: usize, posts: &Vec<Post>) -> (res: Result<(), SessionError>)
        requires
            old(self).wf(),
        ensures
            final(self).wf(),
            match res {
                Ok(_) => old(self)@.entered_posts(index, post_models(posts@)) == Some(final(self)@),
                Err(e) => old(self)@.entered_posts(index, post_models(posts@)).is_none()
                    && final(self)@ == old(self)@ && e == SessionError::SelectionOutOfRange,
            },
    {
        match self.confirm(index) {
            Ok(Request::Posts(board, thread)) => {
                let blocks = render_posts(posts, self.width);
                let frame = ViewFrame::Posts(board, thread, blocks);
                proof {
                    lemma_pushed_keeps_shape(self@, frame@, index);
                }
                let ghost before = self.frames@;
                self.frames.push(frame);
                assert(self@.frames =~= frame_models(before).push(frame@));
                Ok(())
            },
            _ => Err(SessionError::SelectionOutOfRange),
        }
    }

    /// Takes the top frame away, so that what lay below it shows again as
    /// it was left. At the root nothing is taken away: the session ends.
    pub fn cancel(&mut self) -> (action: Action)
        requires
            old(self).wf(),
        ensures
            final(self).wf(),
            final(self)@ == old(self)@.left(),
            action@ == if old(self)@.frames.len() > 1 {
                ActionModel::Close
            } else {
                ActionModel::Exit
            },
    {
        if self.frames.len() > 1 {
            let ghost before = self.frames@;
            self.frames.pop();
            proof {
                assert(self@.frames =~= frame_models(before).drop_last());
                lemma_left_keeps_shape(old(self)@);
                assert forall|i: int| 0 <= i < self.frames@.len() implies (#[trigger] self.frames@[
                    i
                ]).wf() by {
                    assert(self.frames@[i] == before[i]);
                }
            }
            Action::Close
        } else {
            Action::Exit
        }
    }

    /// Handles one event: the stack moves as the event says, and the
    /// answer is what has to be done next.
    pub fn dispatch(&mut self, event: Event) -> (action: Action)
        requires
            old(self).wf(),
        ensures
            final(self).wf(),
            (final(self)@, action@) == old(self)@.step(event@),
    {
        match event {
            Event::Edit(needle) => {
                self.edit(needle.as_str());
                Action::Refresh
            },
            Event::Confirm(index) => match self.confirm(index) {
                Ok(request) => Action::Fetch(request),
                Err(e) => Action::Abort(e),
            },
            Event::Cancel => self.cancel(),
            Event::Quit => Action::Exit,
            Event::Threads(index, threads) => match self.open_threads(index, &threads) {
                Ok(_) => Action::Open,
                Err(e) => Action::Abort(e),
            },
            Event::Posts(index, posts) => match self.open_posts(index, &posts) {
                Ok(_) => Action::Open,
                Err(e) => Action::Abort(e),
            },
            Event::Failed(e) => Action::Abort(e),
        }
    }
}

/// The posts as blocks of display text, in their order.
pub fn render_posts(posts: &Vec<Post>, width: usize) -> (blocks: Vec<String>)
    ensures
        blocks@.map_values(|b: String| b@) == post_models(posts@).map_values(
            |p: PostModel| post_text(p, width),
        ),
{
    let mut blocks: Vec<String> = Vec::new();
    let mut i: usize = 0;
    while i < posts.len()
        invariant
            i <= posts.len(),
            blocks@.len() == i,
            forall|k: int| 0 <= k < i ==> (#[trigger] blocks@[k])@ == post_text(posts@[k]@, width),
        decreases posts.len() - i,
    {
        let block = format_post(&posts[i], width, Palette::Plain);
        blocks.push(block);
        i = i + 1;
    }
    assert(blocks@.map_values(|b: String| b@) =~= post_models(posts@).map_values(
        |p: PostModel| post_text(p, width),
    ));
    blocks
}

/// An edit of the filter text keeps the shape of the stack.
pub proof fn lemma_with_top_keeps_shape(nav: NavModel, needle: Seq<char>)
    requires
        nav.well_shaped(),
    ensures
        nav.edited(needle).well_shaped(),
        nav.edited(needle).frames.len() == nav.frames.len(),
        nav.edited(needle).frames.drop_last() == nav.frames.drop_last(),
{
    let next = nav.edited(needle);
    let last = nav.frames.len() - 1;
    assert(next.frames.drop_last() =~= nav.frames.drop_last());
    assert forall|i: int| 0 < i < next.frames.len() implies (#[trigger] next.frames[i]).follows(
        next.frames[i - 1],
    ) by {
        assert(nav.frames[i].follows(nav.frames[i - 1]));
        assert(next.frames[i - 1] == nav.frames[i - 1]);
        if i < last {
            assert(next.frames[i] == nav.frames[i]);
        }
    }
}

/// Opening a frame for a confirmed selection keeps the shape of the stack.
pub proof fn lemma_pushed_keeps_shape(nav: NavModel, frame: FrameModel, index: usize)
    requires
        nav.well_shaped(),
        match frame {
            FrameModel::Boards(_) => false,
            FrameModel::Threads(board, _) => nav.top().request(index) == Ok::<
                RequestModel,
                SessionError,
            >(RequestModel::Threads(board)),
            FrameModel::Posts(board, thread, _) => nav.top().request(index) == Ok::<
                RequestModel,
                SessionError,
            >(RequestModel::Posts(board, thread)),
        },
    ensures
        nav.pushed(frame).well_shaped(),
{
    let next = nav.pushed(frame);
    assert forall|i: int| 0 < i < next.frames.len() implies (#[trigger] next.frames[i]).follows(
        next.frames[i - 1],
    ) by {
        if i < nav.frames.len() {
            assert(nav.frames[i].follows(nav.frames[i - 1]));
        }
    }
}

/// A cancel keeps the shape of the stack.
pub proof fn lemma_left_keeps_shape(nav: NavModel)
    requires
        nav.well_shaped(),
    ensures
        nav.left().well_shaped(),
{
    let next = nav.left();
    assert forall|i: int| 0 < i < next.frames.len() implies (#[trigger] next.frames[i]).follows(
        next.frames[i - 1],
    ) by {
        assert(nav.frames[i].follows(nav.frames[i - 1]));
    }
}

/// Whatever happens, the stack keeps its shape: it is never empty, its root
/// is the frame of the boards, and every other frame carries the key of an
/// entry that the frame below it shows.
pub proof fn lemma_step_keeps_shape(nav: NavModel, event: EventModel)
    requires
        nav.well_shaped(),
    ensures
        nav.step(event).0.well_shaped(),
        nav.step(event).0.width == nav.width,
{
    match event {
        EventModel::Edit(needle) => {
            lemma_with_top_keeps_shape(nav, needle);
        },
        EventModel::Cancel => {
            lemma_left_keeps_shape(nav);
        },
        EventModel::Threads(index, threads) => {
            match nav.top().request(index) {
                Ok(RequestModel::Threads(board)) => {
                    lemma_pushed_keeps_shape(nav, threads_frame(board, threads), index);
                },
                _ => {},
            }
        },
        EventModel::Posts(index, posts) => {
            match nav.top().request(index) {
                Ok(RequestModel::Posts(board, thread)) => {
                    lemma_pushed_keeps_shape(
                        nav,
                        posts_frame(board, thread, posts, nav.width),
                        index,
                    );
                },
                _ => {},
            }
        },
        _ => {},
    }
}

/// A cancel undoes an opening: where an event has put a frame on the
/// stack, a cancel right after it gives back the stack as it was before the
/// event, with the filter text and the shown part of every frame as they
/// were, and nothing is fetched for it.
pub proof fn lemma_cancel_restores(nav: NavModel, event: EventModel)
    requires
        nav.well_shaped(),
        nav.step(event).0.frames.len() > nav.frames.len(),
    ensures
        nav.step(event).0.step(EventModel::Cancel) == (nav, ActionModel::Close),
{
    let next = nav.step(event).0;
    match event {
        EventModel::Edit(needle) => {
            lemma_with_top_keeps_shape(nav, needle);
        },
        EventModel::Threads(index, threads) => {
            assert(next.frames.drop_last() =~= nav.frames);
        },
        EventModel::Posts(index, posts) => {
            assert(next.frames.drop_last() =~= nav.frames);
        },
        _ => {},
    }
}

/// Threads that come in for a shown board are opened on top of the
/// boards, under that board's id, and a cancel gives the boards back as
/// they were.
pub proof fn lemma_threads_open_and_close(
    nav: NavModel,
    index: usize,
    threads: Seq<ThreadModel>,
)
    requires
        nav.well_shaped(),
        nav.top() is Boards,
        nav.top()->Boards_0.key_at(index as int) is Some,
    ensures
        nav.step(EventModel::Threads(index, threads)).0.top() == threads_frame(
            nav.top()->Boards_0.key_at(index as int)->0,
            threads,
        ),
        nav.step(EventModel::Threads(index, threads)).0.step(EventModel::Cancel).0 == nav,
{
    let next = nav.step(EventModel::Threads(index, threads)).0;
    assert(next.frames.drop_last() =~= nav.frames);
}

/// A stack has at most three frames: the boards, the threads of a board,
/// the posts of a thread.
pub proof fn lemma_depth(nav: NavModel)
    requires
        nav.well_shaped(),
    ensures
        1 <= nav.frames.len() <= 3,
        nav.frames.len() >= 2 ==> nav.frames[1] is Threads,
        nav.frames.len() >= 3 ==> nav.frames[2] is Posts,
{
    if nav.frames.len() >= 2 {
        assert(nav.frames[1].follows(nav.frames[0]));
        lemma_follows_kind(nav.frames[1], nav.frames[0]);
    }
    if nav.frames.len() >= 3 {
        assert(nav.frames[2].follows(nav.frames[1]));
        lemma_follows_kind(nav.frames[2], nav.frames[1]);
    }
    if nav.frames.len() >= 4 {
        assert(nav.frames[3].follows(nav.frames[2]));
        lemma_follows_kind(nav.frames[3], nav.frames[2]);
    }
}

/// What follows what: threads follow boards under the key of a shown
/// board, posts follow threads of the same board under the key of a shown
/// thread, and nothing follows posts.
pub proof fn lemma_follows_kind(frame: FrameModel, parent: FrameModel)
    requires
        frame.follows(parent),
    ensures
        match parent {
            FrameModel::Boards(list) => frame is Threads && list.shows_key(frame->Threads_0),
            FrameModel::Threads(board, list) => frame is Posts && frame->Posts_0 == board
                && list.shows_key(frame->Posts_1),
            FrameModel::Posts(_, _, _) => false,
        },
{
    match frame {
        FrameModel::Boards(_) => {},
        FrameModel::Threads(board, _) => {
            let index = choose|index: usize|
                parent.request(index) == Ok::<RequestModel, SessionError>(
                    RequestModel::Threads(board),
                );
            match parent {
                FrameModel::Boards(list) => {
                    assert(list.key_at(index as int) == Some(board));
                },
                _ => {},
            }
        },
        FrameModel::Posts(board, thread, _) => {
            let index = choose|index: usize|
                parent.request(index) == Ok::<RequestModel, SessionError>(
                    RequestModel::Posts(board, thread),
                );
            match parent {
                FrameModel::Threads(_, list) => {
                    assert(list.key_at(index as int) == Some(thread));
                },
                _ => {},
            }
        },
    }
}

/// The session ends on a quit from anywhere and on a cancel at the root,
/// and a failure ends it with that failure; none of them moves the stack.
pub proof fn lemma_endings(nav: NavModel, failure: SessionError)
    requires
        nav.well_shaped(),
    ensures
        nav.step(EventModel::Quit) == (nav, ActionModel::Exit),
        nav.frames.len() == 1 ==> nav.step(EventModel::Cancel) == (nav, ActionModel::Exit),
        nav.frames.len() > 1 ==> nav.step(EventModel::Cancel).1 == ActionModel::Close,
        nav.step(EventModel::Failed(failure)) == (nav, ActionModel::Abort(failure)),
{
}

} // verus!
