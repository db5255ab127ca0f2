//! What passes between the player and the model: the model's replies, and what
//! is to be done to the conversation.

use serde_json::Value;
use vstd::prelude::*;

use crate::json::{json_of, Json};
use crate::stats::Usage;

verus! {

/// A call that the model makes of a tool.
pub struct ToolCall {
    pub id: String,
    pub name: String,
    pub input: Value,
}

/// A call: who is to be answered, which tool, and with what input.
#[verifier::ext_equal]
pub struct CallView {
    pub id: Seq<char>,
    pub name: Seq<char>,
    pub input: Json,
}

impl View for ToolCall {
    type V = CallView;

    open spec fn view(&self) -> CallView {
        CallView { id: self.id@, name: self.name@, input: json_of(self.input) }
    }
}

/// One piece of a reply.
pub enum Block {
    Text(String),
    /// The summary of the model's reasoning, if it gives one.
    Reasoning(Option<String>),
    ToolUse(ToolCall),
    Other,
}

/// A reply of the model.
pub struct Reply {
    pub content: Vec<Block>,
    pub usage: Usage,
}

/// The calls among the pieces of a reply, in order.
pub open spec fn calls_in(content: Seq<Block>) -> Seq<CallView>
    decreases content.len(),
{
    if content.len() == 0 {
        Seq::empty()
    } else {
        match content.last() {
            Block::ToolUse(c) => calls_in(content.drop_last()).push(c@),
            _ => calls_in(content.drop_last()),
        }
    }
}

/// The prose of a reply.
pub open spec fn prose_in(content: Seq<Block>) -> Seq<char>
    decreases content.len(),
{
    if content.len() == 0 {
        Seq::empty()
    } else {
        match content.last() {
            Block::Text(t) => prose_in(content.drop_last()) + t@,
            _ => prose_in(content.drop_last()),
        }
    }
}

/// The summaries of the reasoning in a reply.
pub open spec fn reasoning_in(content: Seq<Block>) -> Seq<char>
    decreases content.len(),
{
    if content.len() == 0 {
        Seq::empty()
    } else {
        match content.last() {
            Block::Reasoning(Some(s)) => reasoning_in(content.drop_last()) + s@,
            _ => reasoning_in(content.drop_last()),
        }
    }
}

pub proof fn lemma_calls_bound(content: Seq<Block>)
    ensures
        calls_in(content).len() <= content.len(),
    decreases content.len(),
{
    if content.len() > 0 {
        lemma_calls_bound(content.drop_last());
    }
}

/// What a tool call is answered with.
#[derive(Debug, Clone)]
pub enum ToolOutput {
    Text(String),
    Error(String),
}

/// An answer to a tool call.
#[verifier::ext_equal]
pub enum OutputView {
    Text(Seq<char>),
    Error(Seq<char>),
}

impl View for ToolOutput {
    type V = OutputView;

    open spec fn view(&self) -> OutputView {
        match self {
            ToolOutput::Text(s) => OutputView::Text(s@),
            ToolOutput::Error(s) => OutputView::Error(s@),
        }
    }
}

/// Something to be done to the conversation. At most one of its messages is
/// volatile: the fat block, which is to be rewritten once it is answered.
pub enum Action {
    /// Append the answer to a tool call. It is never rewritten.
    PushToolResult(String, ToolOutput),
    /// Append a user message. It is never rewritten.
    PushUser(String),
    /// Append the fat block as the volatile message; there is none yet.
    PushVolatileUser(String),
    /// Rewrite the volatile message to the first text, and append the second,
    /// the new fat block, as the volatile message.
    RotateVolatileUser(String, String),
    /// Rewrite the volatile message to the text; none is volatile from then on.
    DemoteVolatile(String),
}

/// Something to be done to the conversation.
#[verifier::ext_equal]
pub enum ActionView {
    PushToolResult(Seq<char>, OutputView),
    PushUser(Seq<char>),
    PushVolatileUser(Seq<char>),
    RotateVolatileUser(Seq<char>, Seq<char>),
    DemoteVolatile(Seq<char>),
}

impl View for Action {
    type V = ActionView;

    open spec fn view(&self) -> ActionView {
        match self {
            Action::PushToolResult(id, output) => ActionView::PushToolResult(id@, output@),
            Action::PushUser(text) => ActionView::PushUser(text@),
            Action::PushVolatileUser(fat) => ActionView::PushVolatileUser(fat@),
            Action::RotateVolatileUser(stub, fat) => ActionView::RotateVolatileUser(stub@, fat@),
            Action::DemoteVolatile(stub) => ActionView::DemoteVolatile(stub@),
        }
    }
}

/// What is to be done, in order.
pub open spec fn action_views(actions: Seq<Action>) -> Seq<ActionView> {
    Seq::new(actions.len(), |i: int| actions[i]@)
}

pub proof fn lemma_action_push(actions: Seq<Action>, a: Action)
    ensures
        action_views(actions.push(a)) == action_views(actions).push(a@),
{
    assert(action_views(actions.push(a)) =~= action_views(actions).push(a@));
}

// ---------------------------------------------------------------------------
// Nothing of a reply is lost
// ---------------------------------------------------------------------------

/// What a reply says is what its first part says and then what its second part
/// says: its prose, the summaries of its reasoning, and its calls.
pub proof fn law_replies_add_up(a: Seq<Block>, b: Seq<Block>)
    ensures
        prose_in(a + b) == prose_in(a) + prose_in(b),
        reasoning_in(a + b) == reasoning_in(a) + reasoning_in(b),
        calls_in(a + b) == calls_in(a) + calls_in(b),
    decreases b.len(),
{
    if b.len() == 0 {
        assert(a + b =~= a);
        assert(prose_in(a) + prose_in(b) =~= prose_in(a));
        assert(reasoning_in(a) + reasoning_in(b) =~= reasoning_in(a));
        assert(calls_in(a) + calls_in(b) =~= calls_in(a));
    } else {
        law_replies_add_up(a, b.drop_last());
        assert((a + b).drop_last() =~= a + b.drop_last());
        assert((a + b).last() == b.last());
        assert(prose_in(a + b) =~= prose_in(a) + prose_in(b));
        assert(reasoning_in(a + b) =~= reasoning_in(a) + reasoning_in(b));
        assert(calls_in(a + b) =~= calls_in(a) + calls_in(b));
    }
}

/// A piece of a reply is prose, or a summary of reasoning, or a call, or none of
/// these, and counts as that alone.
pub proof fn law_a_piece_counts_once(b: Block)
    ensures
        prose_in(seq![b]) == (match b {
            Block::Text(t) => t@,
            _ => Seq::empty(),
        }),
        reasoning_in(seq![b]) == (match b {
            Block::Reasoning(Some(t)) => t@,
            _ => Seq::empty(),
        }),
        calls_in(seq![b]) == (match b {
            Block::ToolUse(c) => seq![c@],
            _ => Seq::empty(),
        }),
{
    let s = seq![b];
    assert(s.drop_last() =~= Seq::<Block>::empty());
    assert(s.last() == b);
    reveal_with_fuel(prose_in, 2);
    reveal_with_fuel(reasoning_in, 2);
    reveal_with_fuel(calls_in, 2);
    match b {
        Block::Text(t) => {
            assert(prose_in(s) =~= t@);
        },
        Block::Reasoning(Some(t)) => {
            assert(reasoning_in(s) =~= t@);
        },
        Block::ToolUse(c) => {
            assert(calls_in(s) =~= seq![c@]);
        },
        _ => {},
    }
}

/// What is to be done is done in the order in which it is listed.
pub proof fn law_actions_keep_their_order(actions: Seq<Action>, i: int)
    ensures
        action_views(actions).len() == actions.len(),
        0 <= i < actions.len() ==> action_views(actions)[i] == actions[i]@,
{
}

} // verus!
