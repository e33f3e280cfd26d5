//! The answer of a language model, assembled from the parts of its reply.
use vstd::prelude::*;
use crate::message::{ToolCall, ToolCallView, clone_tool_calls, tool_calls_view};

verus! {

/// Why the completion finished.
#[derive(Debug, Clone, Copy, PartialEq, Eq, Structural)]
pub enum FinishReason {
    Stop,
    Length,
    ToolUse,
    Reasoning,
    ContentFilter,
    Unknown,
}

/// One part of the assistant's reply: text, a tool call, reasoning (as the
/// text it displays), or a part of another kind.
#[derive(Debug)]
pub enum AssistantPart {
    Text(String),
    ToolCall(ToolCall),
    Reasoning(String),
    Other,
}

pub enum AssistantPartView {
    Text(Seq<char>),
    ToolCall(ToolCallView),
    Reasoning(Seq<char>),
    Other,
}

impl View for AssistantPart {
    type V = AssistantPartView;

    open spec fn view(&self) -> AssistantPartView {
        match self {
            AssistantPart::Text(t) => AssistantPartView::Text(t@),
            AssistantPart::ToolCall(c) => AssistantPartView::ToolCall(c@),
            AssistantPart::Reasoning(r) => AssistantPartView::Reasoning(r@),
            AssistantPart::Other => AssistantPartView::Other,
        }
    }
}

/// Views of the parts of a reply.
pub open spec fn parts_of(v: Seq<AssistantPart>) -> Seq<AssistantPartView> {
    v.map_values(|p: AssistantPart| p@)
}

/// The answer of a language model.
#[derive(Debug)]
pub struct LLMResponse {
    pub thinking: Option<String>,
    pub content: Option<String>,
    pub tool_calls: Vec<ToolCall>,
    pub finish_reason: FinishReason,
    pub input_tokens: u32,
    pub output_tokens: u32,
    /// Tokens read from the provider's server-side prompt cache.
    pub cache_read_input_tokens: u32,
    /// Tokens written to the provider's server-side prompt cache.
    pub cache_creation_input_tokens: u32,
}

pub struct LLMResponseView {
    pub thinking: Option<Seq<char>>,
    pub content: Option<Seq<char>>,
    pub tool_calls: Seq<ToolCallView>,
    pub finish_reason: FinishReason,
    pub input_tokens: u32,
    pub output_tokens: u32,
    pub cache_read_input_tokens: u32,
    pub cache_creation_input_tokens: u32,
}

impl View for LLMResponse {
    type V = LLMResponseView;

    open spec fn view(&self) -> LLMResponseView {
        LLMResponseView {
            thinking: self.thinking.deep_view(),
            content: self.content.deep_view(),
            tool_calls: tool_calls_view(self.tool_calls@),
            finish_reason: self.finish_reason,
            input_tokens: self.input_tokens,
            output_tokens: self.output_tokens,
            cache_read_input_tokens: self.cache_read_input_tokens,
            cache_creation_input_tokens: self.cache_creation_input_tokens,
        }
    }
}

/// The non-empty text of a part.
pub open spec fn text_of(p: AssistantPartView) -> Option<Seq<char>> {
    match p {
        AssistantPartView::Text(t) => if t.len() > 0 {
            Some(t)
        } else {
            None
        },
        _ => None,
    }
}

/// The tool call of a part.
pub open spec fn call_of(p: AssistantPartView) -> Option<ToolCallView> {
    match p {
        AssistantPartView::ToolCall(c) => Some(c),
        _ => None,
    }
}

/// The reasoning text of a part.
pub open spec fn reasoning_of(p: AssistantPartView) -> Option<Seq<char>> {
    match p {
        AssistantPartView::Reasoning(r) => Some(r),
        _ => None,
    }
}

/// The strings of `parts` one after the other.
pub open spec fn concat(parts: Seq<Seq<char>>) -> Seq<char>
    decreases parts.len(),
{
    if parts.len() == 0 {
        Seq::empty()
    } else {
        concat(parts.drop_last()) + parts.last()
    }
}

/// The strings of `parts` joined, or `None` when there are none.
pub open spec fn joined(parts: Seq<Seq<char>>) -> Option<Seq<char>> {
    if parts.len() == 0 {
        None
    } else {
        Some(concat(parts))
    }
}

/// Why a reply finished: it asks for tools, or it holds reasoning and no
/// text, or it stops.
pub open spec fn finish_of(content: Option<Seq<char>>, thinking: Option<Seq<char>>, calls: Seq<ToolCallView>) -> FinishReason {
    if calls.len() > 0 {
        FinishReason::ToolUse
    } else if content is None && thinking is Some {
        FinishReason::Reasoning
    } else {
        FinishReason::Stop
    }
}

/// The answer made of the parts `choice`: the non-empty texts joined, the
/// reasoning texts joined, the tool calls in order, no token counts.
pub open spec fn response_of(choice: Seq<AssistantPartView>) -> LLMResponseView {
    let content = joined(choice.filter_map(|p: AssistantPartView| text_of(p)));
    let thinking = joined(choice.filter_map(|p: AssistantPartView| reasoning_of(p)));
    let calls = choice.filter_map(|p: AssistantPartView| call_of(p));
    LLMResponseView {
        thinking,
        content,
        tool_calls: calls,
        finish_reason: finish_of(content, thinking, calls),
        input_tokens: 0,
        output_tokens: 0,
        cache_read_input_tokens: 0,
        cache_creation_input_tokens: 0,
    }
}

/// The strings of `parts` one after the other.
pub fn join_all(parts: &Vec<String>) -> (r: String)
    ensures
        r@ == concat(parts.deep_view()),
{
    let mut r = String::new();
    let mut i: usize = 0;
    while i < parts.len()
        invariant
            i <= parts@.len(),
            r@ == concat(parts.deep_view().take(i as int)),
        decreases parts@.len() - i,
    {
        proof {
            assert(parts.deep_view().take(i + 1).drop_last() =~= parts.deep_view().take(i as int));
        }
        r.append(parts[i].as_str());
        i = i + 1;
    }
    proof {
        assert(parts.deep_view().take(parts@.len() as int) =~= parts.deep_view());
    }
    r
}

proof fn lemma_filter_map_step<A, B>(s: Seq<A>, i: int, f: spec_fn(A) -> Option<B>)
    requires
        0 <= i < s.len(),
    ensures
        s.take(i + 1).filter_map(f) == (match f(s[i]) {
            Some(b) => s.take(i).filter_map(f).push(b),
            None => s.take(i).filter_map(f),
        }),
{
    assert(s.take(i + 1).drop_last() =~= s.take(i));
    assert(s.take(i + 1).last() == s[i]);
    match f(s[i]) {
        Some(b) => {
            assert(s.take(i).filter_map(f) + seq![b] =~= s.take(i).filter_map(f).push(b));
        },
        None => {},
    }
}

/// An element that `f` keeps is found among what `filter_map` gives.
proof fn lemma_filter_map_keeps<A, B>(s: Seq<A>, i: int, f: spec_fn(A) -> Option<B>)
    requires
        0 <= i < s.len(),
        f(s[i]) is Some,
    ensures
        s.filter_map(f).contains(f(s[i])->0),
    decreases s.len(),
{
    let b = f(s[i])->0;
    let rest = s.drop_last();
    if i == s.len() - 1 {
        let fm = rest.filter_map(f) + seq![b];
        assert(fm[fm.len() - 1] == b);
    } else {
        assert(rest[i] == s[i]);
        lemma_filter_map_keeps(rest, i, f);
        let j = choose|j: int| 0 <= j < rest.filter_map(f).len() && rest.filter_map(f)[j] == b;
        match f(s.last()) {
            Some(x) => {
                assert((rest.filter_map(f) + seq![x])[j] == b);
            },
            None => {},
        }
    }
}

/// Nothing is found by `filter_map` when `f` keeps no element.
proof fn lemma_filter_map_none<A, B>(s: Seq<A>, f: spec_fn(A) -> Option<B>)
    requires
        forall|i: int| 0 <= i < s.len() ==> (#[trigger] f(s[i])) is None,
    ensures
        s.filter_map(f).len() == 0,
    decreases s.len(),
{
    if s.len() > 0 {
        let rest = s.drop_last();
        assert forall|i: int| 0 <= i < rest.len() implies (#[trigger] f(rest[i])) is None by {
            assert(rest[i] == s[i]);
        }
        lemma_filter_map_none(rest, f);
        assert(f(s[s.len() - 1]) is None);
    }
}

/// Law: a reply that calls a tool finishes for tool use, whatever text or
/// reasoning it also carries, and the call is among the answer's tool calls;
/// a reply that calls no tool never finishes for tool use.
pub proof fn law_tool_calls_finish_with_tool_use(choice: Seq<AssistantPartView>)
    ensures
        forall|i: int| 0 <= i < choice.len() && (#[trigger] choice[i]) is ToolCall ==> {
            &&& response_of(choice).finish_reason == FinishReason::ToolUse
            &&& response_of(choice).tool_calls.contains(choice[i]->ToolCall_0)
        },
        (forall|i: int| 0 <= i < choice.len() ==> !((#[trigger] choice[i]) is ToolCall)) ==> response_of(choice).finish_reason
            != FinishReason::ToolUse,
{
    let f = |p: AssistantPartView| call_of(p);
    assert forall|i: int| 0 <= i < choice.len() && (#[trigger] choice[i]) is ToolCall implies {
        &&& response_of(choice).finish_reason == FinishReason::ToolUse
        &&& response_of(choice).tool_calls.contains(choice[i]->ToolCall_0)
    } by {
        assert(f(choice[i]) == Some(choice[i]->ToolCall_0));
        lemma_filter_map_keeps(choice, i, f);
    }
    if forall|i: int| 0 <= i < choice.len() ==> !((#[trigger] choice[i]) is ToolCall) {
        assert forall|i: int| 0 <= i < choice.len() implies (#[trigger] f(choice[i])) is None by {
            assert(!(choice[i] is ToolCall));
        }
        lemma_filter_map_none(choice, f);
    }
}

impl LLMResponse {
    /// The answer made of the parts of a reply (see `response_of`).
    pub fn new(choice: Vec<AssistantPart>) -> (r: Self)
        ensures
            r@ == response_of(parts_of(choice@)),
            (exists|i: int| 0 <= i < choice@.len() && (#[trigger] choice@[i]) is ToolCall) ==> r.finish_reason
                == FinishReason::ToolUse,
    {
        let ghost cv = parts_of(choice@);
        let mut content_parts: Vec<String> = Vec::new();
        let mut thinking_parts: Vec<String> = Vec::new();
        let mut tool_calls: Vec<ToolCall> = Vec::new();
        let mut i: usize = 0;
        while i < choice.len()
            invariant
                cv == parts_of(choice@),
                i <= choice@.len(),
                content_parts.deep_view() == cv.take(i as int).filter_map(|p: AssistantPartView| text_of(p)),
                thinking_parts.deep_view() == cv.take(i as int).filter_map(|p: AssistantPartView| reasoning_of(p)),
                tool_calls_view(tool_calls@) == cv.take(i as int).filter_map(|p: AssistantPartView| call_of(p)),
            decreases choice@.len() - i,
        {
            proof {
                lemma_filter_map_step(cv, i as int, |p: AssistantPartView| text_of(p));
                lemma_filter_map_step(cv, i as int, |p: AssistantPartView| reasoning_of(p));
                lemma_filter_map_step(cv, i as int, |p: AssistantPartView| call_of(p));
                assert(cv[i as int] == choice@[i as int]@);
            }
            match &choice[i] {
                AssistantPart::Text(t) => {
                    if !t.as_str().is_empty() {
                        let ghost c0 = content_parts.deep_view();
                        content_parts.push(t.clone());
                        proof {
                            assert(content_parts.deep_view() =~= c0.push(t@));
                        }
                    }
                },
                AssistantPart::ToolCall(c) => {
                    let ghost c0 = tool_calls@;
                    tool_calls.push(c.clone());
                    proof {
                        assert(tool_calls_view(tool_calls@) =~= tool_calls_view(c0).push(c@));
                    }
                },
                AssistantPart::Reasoning(r) => {
                    let ghost c0 = thinking_parts.deep_view();
                    thinking_parts.push(r.clone());
                    proof {
                        assert(thinking_parts.deep_view() =~= c0.push(r@));
                    }
                },
                AssistantPart::Other => {},
            }
            i = i + 1;
        }
        proof {
            assert(cv.take(choice@.len() as int) =~= cv);
        }
        let content = if content_parts.len() == 0 {
            None
        } else {
            Some(join_all(&content_parts))
        };
        let thinking = if thinking_parts.len() == 0 {
            None
        } else {
            Some(join_all(&thinking_parts))
        };
        let finish_reason = if tool_calls.len() > 0 {
            FinishReason::ToolUse
        } else if content.is_none() && thinking.is_some() {
            FinishReason::Reasoning
        } else {
            FinishReason::Stop
        };
        let r = LLMResponse {
            thinking,
            content,
            tool_calls,
            finish_reason,
            input_tokens: 0,
            output_tokens: 0,
            cache_read_input_tokens: 0,
            cache_creation_input_tokens: 0,
        };
        proof {
            law_tool_calls_finish_with_tool_use(cv);
            if exists|i: int| 0 <= i < choice@.len() && (#[trigger] choice@[i]) is ToolCall {
                let i = choose|i: int| 0 <= i < choice@.len() && (#[trigger] choice@[i]) is ToolCall;
                assert(cv[i] is ToolCall);
            }
        }
        r
    }
}

} // verus!
