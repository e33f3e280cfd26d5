//! Rebuilding a thread from its own messages gives back its messages.
use vstd::prelude::*;
use vstd::utf8::encode_utf8;
use crate::ext::{json_quote, json_string_value};
use crate::message::{ChatMessageView, Role, ToolCallView, plain_message};
use crate::session::thread::{
    RestoredTurn, call_rebuilt_as, call_request, calls_message, calls_rebuilt_as, is_restored_turn, requested_calls,
    restore_tool_batches, restore_tool_results, restore_turns, restored_from, result_message,
    thread_messages, tool_output_text, turn_messages, user_message, with_tool_result,
};
use crate::session::turn::{TurnToolCallView, TurnView};
use crate::utils::truncate_preview_spec;

verus! {

/// The text shown for a tool call before it is cut to 1000 bytes.
pub open spec fn tool_output_raw(tc: TurnToolCallView) -> Seq<char> {
    match tc.error {
        Some(e) => e,
        None => match tc.result {
            Some(r) => match json_string_value(r) {
                Some(s) => s,
                None => r,
            },
            None => "OK"@,
        },
    }
}

/// Turn `t` is the `i`-th turn, has no attachments, and each of its tool
/// outputs fits in 1000 bytes of UTF-8.
pub open spec fn plain_turn(t: TurnView, i: int) -> bool {
    &&& t.turn_number == i
    &&& t.attachments.len() == 0
    &&& forall|k: int| 0 <= k < t.tool_calls.len() ==> encode_utf8(tool_output_raw(#[trigger] t.tool_calls[k])).len() <= 1000
}

/// What `restore_turns` rebuilds from the messages of turn `t`.
pub open spec fn restored_content(t: TurnView) -> RestoredTurn {
    RestoredTurn {
        user_input: t.user_input,
        tool_calls: Seq::new(
            t.tool_calls.len(),
            |k: int|
                TurnToolCallView {
                    name: t.tool_calls[k].name,
                    parameters: t.tool_calls[k].parameters,
                    result: Some(tool_output_text(t.tool_calls[k])),
                    error: None,
                },
        ),
        response: t.response,
    }
}

/// The calls of `t` as requested, with the results of the first `i` stored.
spec fn partial_calls(t: TurnView, i: int) -> Seq<TurnToolCallView> {
    Seq::new(
        t.tool_calls.len(),
        |k: int|
            TurnToolCallView {
                name: t.tool_calls[k].name,
                parameters: t.tool_calls[k].parameters,
                result: if k < i {
                    Some(tool_output_text(t.tool_calls[k]))
                } else {
                    None
                },
                error: None,
            },
    )
}

spec fn results_of(t: TurnView) -> Seq<ChatMessageView> {
    Seq::new(t.tool_calls.len(), |i: int| result_message(t, i))
}

proof fn lemma_tool_results(t: TurnView, rest: Seq<ChatMessageView>, i: int)
    requires
        0 <= i <= t.tool_calls.len(),
        rest.len() == 0 || rest[0].role != Role::Tool,
    ensures
        restore_tool_results(results_of(t).skip(i) + rest, partial_calls(t, i), i) == (partial_calls(t, t.tool_calls.len() as int), rest),
    decreases t.tool_calls.len() - i,
{
    let msgs = results_of(t).skip(i) + rest;
    if i == t.tool_calls.len() {
        assert(results_of(t).skip(i) + rest =~= rest);
    } else {
        assert(msgs[0] == result_message(t, i));
        assert(msgs.drop_first() =~= results_of(t).skip(i + 1) + rest);
        assert(with_tool_result(partial_calls(t, i), i, msgs[0].content) =~= partial_calls(t, i + 1));
        lemma_tool_results(t, rest, i + 1);
    }
}

proof fn lemma_tool_batches(t: TurnView, rest: Seq<ChatMessageView>)
    requires
        t.tool_calls.len() > 0,
        rest.len() == 0 || (rest[0].role != Role::Tool && !(rest[0].role == Role::Assistant
            && rest[0].tool_calls is Some)),
    ensures
        restore_tool_batches(seq![calls_message(t)] + results_of(t) + rest, Seq::empty()) == (
            restored_content(t).tool_calls,
            rest,
        ),
{
    let msgs = seq![calls_message(t)] + results_of(t) + rest;
    let n = t.tool_calls.len();
    let tcs = Seq::new(n, |i: int| call_request(t, i));
    assert(msgs[0] == calls_message(t));
    assert(msgs[0].tool_calls == Some(tcs));
    assert(Seq::<TurnToolCallView>::empty() + requested_calls(tcs) =~= partial_calls(t, 0));
    assert(msgs.drop_first() =~= results_of(t).skip(0) + rest);
    lemma_tool_results(t, rest, 0);
    assert(restore_tool_results(msgs.drop_first(), partial_calls(t, 0), 0) == (partial_calls(t, n as int), rest));
    assert(restore_tool_batches(rest, partial_calls(t, n as int)) == (partial_calls(t, n as int), rest));
    assert(partial_calls(t, n as int) =~= restored_content(t).tool_calls);
}

proof fn lemma_restore_turn(t: TurnView, rest: Seq<ChatMessageView>)
    requires
        rest.len() == 0 || rest[0].role == Role::User,
    ensures
        restore_turns(turn_messages(t) + rest) == seq![restored_content(t)] + restore_turns(rest),
{
    let msgs = turn_messages(t) + rest;
    let n = t.tool_calls.len();
    let x: Seq<ChatMessageView> = if n > 0 {
        seq![calls_message(t)] + results_of(t)
    } else {
        Seq::empty()
    };
    let y: Seq<ChatMessageView> = match t.response {
        Some(r) => seq![plain_message(Role::Assistant, r)],
        None => Seq::empty(),
    };
    assert(turn_messages(t) =~= seq![user_message(t)] + x + y);
    assert(msgs[0] == user_message(t));
    assert(msgs.drop_first() =~= x + (y + rest));
    let rest2 = y + rest;
    let b = restore_tool_batches(msgs.drop_first(), Seq::empty());
    if n > 0 {
        assert(x + rest2 =~= seq![calls_message(t)] + results_of(t) + rest2);
        lemma_tool_batches(t, rest2);
        assert(b == (restored_content(t).tool_calls, rest2));
    } else {
        assert(x + rest2 =~= rest2);
        assert(restored_content(t).tool_calls =~= Seq::<TurnToolCallView>::empty());
        assert(b == (restored_content(t).tool_calls, rest2));
    }
    match t.response {
        Some(r) => {
            assert(rest2[0] == plain_message(Role::Assistant, r));
            assert(rest2.drop_first() =~= rest);
        },
        None => {
            assert(rest2 =~= rest);
        },
    }
}

proof fn lemma_thread_messages_front(turns: Seq<TurnView>)
    requires
        turns.len() > 0,
    ensures
        thread_messages(turns) == turn_messages(turns[0]) + thread_messages(turns.drop_first()),
{
    let f = |t: TurnView| turn_messages(t);
    let m = turns.map_values(f);
    assert(m.drop_first() =~= turns.drop_first().map_values(f));
    assert(m.first() == turn_messages(turns[0]));
}

proof fn lemma_restore_all(turns: Seq<TurnView>)
    ensures
        restore_turns(thread_messages(turns)) == turns.map_values(|t: TurnView| restored_content(t)),
    decreases turns.len(),
{
    if turns.len() == 0 {
        assert(thread_messages(turns) =~= Seq::<ChatMessageView>::empty());
        assert(turns.map_values(|t: TurnView| restored_content(t)) =~= Seq::<RestoredTurn>::empty());
    } else {
        lemma_thread_messages_front(turns);
        let rest = thread_messages(turns.drop_first());
        if turns.drop_first().len() > 0 {
            lemma_thread_messages_front(turns.drop_first());
            assert(rest[0] == user_message(turns.drop_first()[0]));
        } else {
            assert(rest =~= Seq::<ChatMessageView>::empty());
        }
        lemma_restore_turn(turns[0], rest);
        lemma_restore_all(turns.drop_first());
        assert(turns.map_values(|t: TurnView| restored_content(t)) =~= seq![restored_content(turns[0])]
            + turns.drop_first().map_values(|t: TurnView| restored_content(t)));
    }
}

proof fn lemma_fits(s: Seq<char>)
    requires
        encode_utf8(s).len() <= 1000,
    ensures
        truncate_preview_spec(s, 1000) == s,
{
}

proof fn lemma_same_messages(r: TurnView, t: TurnView, i: int, session_id: u128, thread_id: u128)
    requires
        plain_turn(t, i),
        is_restored_turn(r, restored_content(t), session_id, thread_id, i),
    ensures
        turn_messages(r) == turn_messages(t),
{
    let n = t.tool_calls.len();
    assert(r.tool_calls.len() == n);
    assert forall|k: int| 0 <= k < n implies tool_output_text(#[trigger] r.tool_calls[k]) == tool_output_text(
        t.tool_calls[k],
    ) by {
        let tc = t.tool_calls[k];
        let d = tool_output_text(tc);
        assert(call_rebuilt_as(r.tool_calls[k], restored_content(t).tool_calls[k]));
        assert(encode_utf8(tool_output_raw(tc)).len() <= 1000);
        match tc.error {
            Some(e) => {
                lemma_fits(e);
            },
            None => match tc.result {
                Some(x) => {
                    lemma_fits(tool_output_raw(tc));
                },
                None => {},
            },
        }
        assert(d == tool_output_raw(tc));
        lemma_fits(d);
    }
    assert(t.attachments =~= r.attachments);
    assert(user_message(r) == user_message(t));
    assert(Seq::new(n, |k: int| call_request(r, k)) =~= Seq::new(n, |k: int| call_request(t, k)));
    assert(calls_message(r) == calls_message(t));
    assert(Seq::new(n, |k: int| result_message(r, k)) =~= Seq::new(n, |k: int| result_message(t, k)));
    assert(turn_messages(r) =~= turn_messages(t));
}

/// Law: rebuilding a thread from its own messages (`restore_from_messages`
/// applied to `messages()`) gives turns whose messages are the original
/// messages, provided the turns are numbered from 0, carry no attachments,
/// and every tool output fits in 1000 bytes.
pub proof fn law_restore_keeps_messages(
    turns: Seq<TurnView>,
    rebuilt: Seq<TurnView>,
    session_id: u128,
    thread_id: u128,
)
    requires
        forall|i: int| 0 <= i < turns.len() ==> plain_turn(#[trigger] turns[i], i),
        restored_from(rebuilt, restore_turns(thread_messages(turns)), session_id, thread_id),
    ensures
        thread_messages(rebuilt) == thread_messages(turns),
{
    lemma_restore_all(turns);
    let f = |t: TurnView| turn_messages(t);
    assert forall|i: int| 0 <= i < turns.len() implies #[trigger] turn_messages(rebuilt[i]) == turn_messages(turns[i]) by {
        assert(restore_turns(thread_messages(turns))[i] == restored_content(turns[i]));
        lemma_same_messages(rebuilt[i], turns[i], i, session_id, thread_id);
    }
    assert(rebuilt.map_values(f) =~= turns.map_values(f));
}

/// A tool call as the binding records it: no error, and a result that is a
/// JSON string whose text fits in 1000 bytes of UTF-8.
pub open spec fn recorded_string_call(tc: TurnToolCallView) -> bool {
    &&& tc.error is None
    &&& tc.result matches Some(r) && (json_string_value(r) matches Some(x) && r == json_quote(x) && encode_utf8(x).len()
        <= 1000)
}

/// Law: rebuilding a thread from its own messages (`restore_from_messages`
/// applied to `messages()`) gives back, turn by turn and whatever the turns'
/// numbers, each turn's input, its answer and its tool calls' names and
/// parameters; the rebuilt turns are numbered from 0, their calls carry no
/// error, and each call's result is the text the model was shown for it, as
/// a JSON string. A call recorded with a JSON string result that fits the
/// shown text (see `recorded_string_call`) keeps its result.
pub proof fn law_restore_keeps_turns(
    turns: Seq<TurnView>,
    rebuilt: Seq<TurnView>,
    session_id: u128,
    thread_id: u128,
)
    requires
        restored_from(rebuilt, restore_turns(thread_messages(turns)), session_id, thread_id),
    ensures
        rebuilt.len() == turns.len(),
        forall|i: int|
            0 <= i < turns.len() ==> {
                let r = #[trigger] rebuilt[i];
                let t = turns[i];
                &&& r.user_input == t.user_input
                &&& r.response == t.response
                &&& r.turn_number == i as usize
                &&& r.tool_calls.len() == t.tool_calls.len()
                &&& forall|k: int|
                    0 <= k < t.tool_calls.len() ==> {
                        &&& (#[trigger] r.tool_calls[k]).name == t.tool_calls[k].name
                        &&& r.tool_calls[k].parameters == t.tool_calls[k].parameters
                        &&& r.tool_calls[k].error is None
                        &&& r.tool_calls[k].result == Some(json_quote(tool_output_text(t.tool_calls[k])))
                        &&& (recorded_string_call(t.tool_calls[k]) ==> r.tool_calls[k].result == t.tool_calls[k].result)
                    }
            },
{
    lemma_restore_all(turns);
    let rs = restore_turns(thread_messages(turns));
    assert(rs.len() == turns.len());
    assert forall|i: int| 0 <= i < turns.len() implies {
        let r = #[trigger] rebuilt[i];
        let t = turns[i];
        &&& r.user_input == t.user_input
        &&& r.response == t.response
        &&& r.turn_number == i as usize
        &&& r.tool_calls.len() == t.tool_calls.len()
        &&& forall|k: int|
            0 <= k < t.tool_calls.len() ==> {
                &&& (#[trigger] r.tool_calls[k]).name == t.tool_calls[k].name
                &&& r.tool_calls[k].parameters == t.tool_calls[k].parameters
                &&& r.tool_calls[k].error is None
                &&& r.tool_calls[k].result == Some(json_quote(tool_output_text(t.tool_calls[k])))
                &&& (recorded_string_call(t.tool_calls[k]) ==> r.tool_calls[k].result == t.tool_calls[k].result)
            }
    } by {
        let r = rebuilt[i];
        let t = turns[i];
        assert(is_restored_turn(r, rs[i], session_id, thread_id, i));
        assert(rs[i] == restored_content(t));
        assert(calls_rebuilt_as(r.tool_calls, rs[i].tool_calls));
        assert forall|k: int| 0 <= k < t.tool_calls.len() implies {
            &&& (#[trigger] r.tool_calls[k]).name == t.tool_calls[k].name
            &&& r.tool_calls[k].parameters == t.tool_calls[k].parameters
            &&& r.tool_calls[k].error is None
            &&& r.tool_calls[k].result == Some(json_quote(tool_output_text(t.tool_calls[k])))
            &&& (recorded_string_call(t.tool_calls[k]) ==> r.tool_calls[k].result == t.tool_calls[k].result)
        } by {
            assert(call_rebuilt_as(r.tool_calls[k], rs[i].tool_calls[k]));
            let tc = t.tool_calls[k];
            if recorded_string_call(tc) {
                let x = json_string_value(tc.result->0)->0;
                assert(tool_output_raw(tc) == x);
                lemma_fits(x);
                assert(tool_output_text(tc) == x);
            }
        }
    }
}

} // verus!
