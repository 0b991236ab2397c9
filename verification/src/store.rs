//! The store: the application state and the reducer that applies events
//! to it.

use vstd::prelude::*;

verus! {

/// One remote content record: an identifier, a reference to its author,
/// a title and a body. Records are immutable once received.
#[derive(PartialEq, Eq, Debug)]
pub struct Post {
    pub id: i32,
    pub author_id: i32,
    pub title: String,
    pub body: String,
}

/// Mathematical image of a [`Post`]: the identifiers as unbounded
/// integers, the texts as character sequences.
#[verifier::ext_equal]
pub struct PostV {
    pub id: int,
    pub author_id: int,
    pub title: Seq<char>,
    pub body: Seq<char>,
}

impl View for Post {
    type V = PostV;

    open spec fn view(&self) -> PostV {
        PostV {
            id: self.id as int,
            author_id: self.author_id as int,
            title: self.title@,
            body: self.body@,
        }
    }
}

impl DeepView for Post {
    type V = PostV;

    open spec fn deep_view(&self) -> PostV {
        self.view()
    }
}

/// The application state: either nothing has been received yet, or the
/// list delivered by the source is loaded, in the order received.
#[derive(PartialEq, Eq, Debug)]
pub enum AppState {
    Empty,
    Loaded(Vec<Post>),
}

/// Mathematical image of an [`AppState`].
#[verifier::ext_equal]
pub enum StateV {
    Empty,
    Loaded(Seq<PostV>),
}

impl View for AppState {
    type V = StateV;

    open spec fn view(&self) -> StateV {
        match self {
            AppState::Empty => StateV::Empty,
            AppState::Loaded(posts) => StateV::Loaded(posts.deep_view()),
        }
    }
}

/// An event that may change the state: the loaded list arriving, or one
/// of the two stubbed user actions.
pub enum Msg {
    PostsReceived(Vec<Post>),
    ViewPost(i32),
    DeletePost(i32),
}

/// Mathematical image of a [`Msg`].
#[verifier::ext_equal]
pub enum MsgV {
    PostsReceived(Seq<PostV>),
    ViewPost(int),
    DeletePost(int),
}

impl View for Msg {
    type V = MsgV;

    open spec fn view(&self) -> MsgV {
        match self {
            Msg::PostsReceived(posts) => MsgV::PostsReceived(posts.deep_view()),
            Msg::ViewPost(id) => MsgV::ViewPost(*id as int),
            Msg::DeletePost(id) => MsgV::DeletePost(*id as int),
        }
    }
}

/// What applying an event to a state yields: a received list replaces
/// the state wholesale; viewing or deleting a post changes nothing.
pub open spec fn spec_update(state: StateV, msg: MsgV) -> StateV {
    match msg {
        MsgV::PostsReceived(list) => StateV::Loaded(list),
        MsgV::ViewPost(_) => state,
        MsgV::DeletePost(_) => state,
    }
}

/// The state at startup, before anything has been received.
pub fn init() -> (s: AppState)
    ensures
        s@ == StateV::Empty,
{
    AppState::Empty
}

/// Applies one event to the state.
pub fn update(msg: Msg, state: &mut AppState)
    ensures
        final(state)@ == spec_update(old(state)@, msg@),
{
    match msg {
        Msg::ViewPost(_id) => {}
        Msg::DeletePost(_id) => {}
        Msg::PostsReceived(posts) => {
            *state = AppState::Loaded(posts);
        }
    }
}

/// Law: a received list replaces whatever state came before, wholesale;
/// nothing of the prior state survives.
pub proof fn lemma_posts_received_replaces(state: StateV, list: Seq<PostV>)
    ensures
        spec_update(state, MsgV::PostsReceived(list)) == StateV::Loaded(list),
{
}

/// Law: a view request leaves every state unchanged.
pub proof fn lemma_view_post_is_noop(state: StateV, id: int)
    ensures
        spec_update(state, MsgV::ViewPost(id)) == state,
{
}

/// Law: a delete request leaves every state unchanged.
pub proof fn lemma_delete_post_is_noop(state: StateV, id: int)
    ensures
        spec_update(state, MsgV::DeletePost(id)) == state,
{
}

} // verus!
