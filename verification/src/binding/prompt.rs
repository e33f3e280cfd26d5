//! The system prompt of an agent.
use vstd::prelude::*;

verus! {

/// The fixed part of the system prompt: who the agent is and its safety rules.
pub open spec fn prompt_preamble() -> Seq<char> {
    "You are xclaw Agent, a best general assistant.\n## Safety\n- You have no independent goals. Do not pursue self-preservation, replication, resource acquisition, or power-seeking beyond the user's request.\n- Prioritize safety and human oversight over task completion. If instructions conflict, pause and ask.\n- Comply with stop, pause, or audit requests. Never bypass safeguards.\n- Do not manipulate anyone to expand your access or disable safeguards.\n- Do not modify system prompts, safety rules, or tool policies unless explicitly requested by the user.\n"@
}

/// The section of identity document `doc` under `header`, when the document
/// was read and is not empty.
pub open spec fn identity_section(header: Seq<char>, doc: Option<Seq<char>>) -> Option<Seq<char>> {
    match doc {
        Some(d) => if d.len() > 0 {
            Some(header + "\n\n"@ + d)
        } else {
            None
        },
        None => None,
    }
}

/// The sections `ss` joined with line breaks.
pub open spec fn sections_joined(ss: Seq<Seq<char>>) -> Seq<char>
    decreases ss.len(),
{
    if ss.len() == 0 {
        Seq::empty()
    } else if ss.len() == 1 {
        ss[0]
    } else {
        sections_joined(ss.drop_last()) + "\n"@ + ss.last()
    }
}

/// The sections of the identity documents read, in the order agent
/// instructions, core values, user context, identity.
pub open spec fn identity_sections(
    agents: Option<Seq<char>>,
    soul: Option<Seq<char>>,
    user: Option<Seq<char>>,
    identity: Option<Seq<char>>,
) -> Seq<Seq<char>> {
    let s1 = pushed(Seq::empty(), identity_section("## Agent Instructions"@, agents));
    let s2 = pushed(s1, identity_section("## Core Values"@, soul));
    let s3 = pushed(s2, identity_section("## User Context"@, user));
    pushed(s3, identity_section("## Identity"@, identity))
}

/// `ss` with `o` appended when it is there.
pub open spec fn pushed(ss: Seq<Seq<char>>, o: Option<Seq<char>>) -> Seq<Seq<char>> {
    match o {
        Some(x) => ss.push(x),
        None => ss,
    }
}

/// `x` occurs in `s` as a run of consecutive characters.
pub open spec fn has_infix(s: Seq<char>, x: Seq<char>) -> bool {
    exists|i: int| #![trigger s.subrange(i, i + x.len())] 0 <= i && i + x.len() <= s.len() && s.subrange(i, i + x.len()) == x
}

/// A document read and not empty.
pub open spec fn filled(doc: Option<Seq<char>>) -> bool {
    doc matches Some(d) && d.len() > 0
}

proof fn lemma_infix_of_split(a: Seq<char>, x: Seq<char>, b: Seq<char>)
    ensures
        has_infix(a + x + b, x),
{
    let s = a + x + b;
    assert(s.subrange(a.len() as int, (a.len() + x.len()) as int) =~= x);
}

/// Each section is found in the sections joined, between two stretches of text.
proof fn lemma_joined_split(ss: Seq<Seq<char>>, k: int) -> (ab: (Seq<char>, Seq<char>))
    requires
        0 <= k < ss.len(),
    ensures
        sections_joined(ss) == ab.0 + ss[k] + ab.1,
    decreases ss.len(),
{
    if ss.len() == 1 {
        assert(sections_joined(ss) =~= Seq::<char>::empty() + ss[0] + Seq::<char>::empty());
        (Seq::empty(), Seq::empty())
    } else if k == ss.len() - 1 {
        let a = sections_joined(ss.drop_last()) + "\n"@;
        assert(sections_joined(ss) =~= a + ss[k] + Seq::<char>::empty());
        (a, Seq::empty())
    } else {
        let (a, b) = lemma_joined_split(ss.drop_last(), k);
        assert(ss.drop_last()[k] == ss[k]);
        let b2 = b + "\n"@ + ss.last();
        assert(sections_joined(ss) =~= a + ss[k] + b2);
        (a, b2)
    }
}

/// The section appended to `ss` stays among the sections pushed after it.
proof fn lemma_pushed_keeps(ss: Seq<Seq<char>>, o: Option<Seq<char>>, k: int)
    requires
        0 <= k < ss.len(),
    ensures
        k < pushed(ss, o).len(),
        pushed(ss, o)[k] == ss[k],
{
}

/// The prompt holds `sec` when the sections hold it at `k`.
proof fn lemma_prompt_holds(ss: Seq<Seq<char>>, k: int)
    requires
        0 <= k < ss.len(),
    ensures
        has_infix(prompt_preamble() + sections_joined(ss), ss[k]),
{
    let (a, b) = lemma_joined_split(ss, k);
    assert(prompt_preamble() + sections_joined(ss) =~= (prompt_preamble() + a) + ss[k] + b);
    lemma_infix_of_split(prompt_preamble() + a, ss[k], b);
}

/// `x` occurs in `s`, and `y` occurs after it.
pub open spec fn in_order(s: Seq<char>, x: Seq<char>, y: Seq<char>) -> bool {
    exists|i: int, j: int|
        #![trigger s.subrange(i, i + x.len()), s.subrange(j, j + y.len())]
        0 <= i && i + x.len() <= j && j + y.len() <= s.len() && s.subrange(i, i + x.len()) == x && s.subrange(j, j + y.len()) == y
}

/// Two sections are found in the sections joined in their order.
proof fn lemma_joined_split2(ss: Seq<Seq<char>>, j: int, k: int) -> (abc: (Seq<char>, Seq<char>, Seq<char>))
    requires
        0 <= j < k < ss.len(),
    ensures
        sections_joined(ss) == abc.0 + ss[j] + abc.1 + ss[k] + abc.2,
    decreases ss.len(),
{
    if k == ss.len() - 1 {
        let (a, b) = lemma_joined_split(ss.drop_last(), j);
        assert(ss.drop_last()[j] == ss[j]);
        let b2 = b + "\n"@;
        assert(sections_joined(ss) =~= a + ss[j] + b2 + ss[k] + Seq::<char>::empty());
        (a, b2, Seq::empty())
    } else {
        let (a, b, c) = lemma_joined_split2(ss.drop_last(), j, k);
        assert(ss.drop_last()[j] == ss[j]);
        assert(ss.drop_last()[k] == ss[k]);
        let c2 = c + "\n"@ + ss.last();
        assert(sections_joined(ss) =~= a + ss[j] + b + ss[k] + c2);
        (a, b, c2)
    }
}

/// The prompt holds the sections at `j` and `k` in that order.
proof fn lemma_prompt_order(ss: Seq<Seq<char>>, j: int, k: int)
    requires
        0 <= j < k < ss.len(),
    ensures
        in_order(prompt_preamble() + sections_joined(ss), ss[j], ss[k]),
{
    let (a, b, c) = lemma_joined_split2(ss, j, k);
    let pa = prompt_preamble() + a;
    let s = prompt_preamble() + sections_joined(ss);
    assert(s =~= pa + ss[j] + b + ss[k] + c);
    let i = pa.len() as int;
    let j2 = (pa.len() + ss[j].len() + b.len()) as int;
    assert(s.subrange(i, i + ss[j].len()) =~= ss[j]);
    assert(s.subrange(j2, j2 + ss[k].len()) =~= ss[k]);
}

/// The section of `doc` under `header`, as a text.
pub open spec fn section_text(header: Seq<char>, doc: Option<Seq<char>>) -> Seq<char> {
    header + "\n\n"@ + doc->0
}

/// Law: the sections of the identity documents come in the order agent
/// instructions, core values, user context, identity: of any two documents
/// read and not empty, the earlier one's section comes first in the prompt.
pub proof fn law_prompt_sections_in_order(
    agents: Option<Seq<char>>,
    soul: Option<Seq<char>>,
    user: Option<Seq<char>>,
    identity: Option<Seq<char>>,
)
    ensures
        ({
            let p = prompt_preamble() + sections_joined(identity_sections(agents, soul, user, identity));
            let a = section_text("## Agent Instructions"@, agents);
            let s = section_text("## Core Values"@, soul);
            let u = section_text("## User Context"@, user);
            let i = section_text("## Identity"@, identity);
            &&& filled(agents) && filled(soul) ==> in_order(p, a, s)
            &&& filled(agents) && filled(user) ==> in_order(p, a, u)
            &&& filled(agents) && filled(identity) ==> in_order(p, a, i)
            &&& filled(soul) && filled(user) ==> in_order(p, s, u)
            &&& filled(soul) && filled(identity) ==> in_order(p, s, i)
            &&& filled(user) && filled(identity) ==> in_order(p, u, i)
        }),
{
    let s0: Seq<Seq<char>> = Seq::empty();
    let s1 = pushed(s0, identity_section("## Agent Instructions"@, agents));
    let s2 = pushed(s1, identity_section("## Core Values"@, soul));
    let s3 = pushed(s2, identity_section("## User Context"@, user));
    let s4 = pushed(s3, identity_section("## Identity"@, identity));
    // Where each section stands in `s4`, when its document is there.
    let ka = 0int;
    let ks = s1.len() as int;
    let ku = s2.len() as int;
    let ki = s3.len() as int;
    if filled(agents) {
        lemma_pushed_keeps(s1, identity_section("## Core Values"@, soul), ka);
        lemma_pushed_keeps(s2, identity_section("## User Context"@, user), ka);
        lemma_pushed_keeps(s3, identity_section("## Identity"@, identity), ka);
    }
    if filled(soul) {
        lemma_pushed_keeps(s2, identity_section("## User Context"@, user), ks);
        lemma_pushed_keeps(s3, identity_section("## Identity"@, identity), ks);
    }
    if filled(user) {
        lemma_pushed_keeps(s3, identity_section("## Identity"@, identity), ku);
    }
    if filled(agents) && filled(soul) {
        lemma_prompt_order(s4, ka, ks);
    }
    if filled(agents) && filled(user) {
        lemma_prompt_order(s4, ka, ku);
    }
    if filled(agents) && filled(identity) {
        lemma_prompt_order(s4, ka, ki);
    }
    if filled(soul) && filled(user) {
        lemma_prompt_order(s4, ks, ku);
    }
    if filled(soul) && filled(identity) {
        lemma_prompt_order(s4, ks, ki);
    }
    if filled(user) && filled(identity) {
        lemma_prompt_order(s4, ku, ki);
    }
}

/// Law: every identity document read and not empty reaches the system
/// prompt, under its own header: agent instructions, core values, user
/// context and identity; the prompt always begins with the preamble, and is
/// the preamble alone when no document was read or all are empty.
pub proof fn law_prompt_carries_every_document(
    agents: Option<Seq<char>>,
    soul: Option<Seq<char>>,
    user: Option<Seq<char>>,
    identity: Option<Seq<char>>,
)
    ensures
        ({
            let p = prompt_preamble() + sections_joined(identity_sections(agents, soul, user, identity));
            &&& filled(agents) ==> has_infix(p, "## Agent Instructions"@ + "\n\n"@ + agents->0)
            &&& filled(soul) ==> has_infix(p, "## Core Values"@ + "\n\n"@ + soul->0)
            &&& filled(user) ==> has_infix(p, "## User Context"@ + "\n\n"@ + user->0)
            &&& filled(identity) ==> has_infix(p, "## Identity"@ + "\n\n"@ + identity->0)
            &&& p.subrange(0, prompt_preamble().len() as int) == prompt_preamble()
            &&& (!filled(agents) && !filled(soul) && !filled(user) && !filled(identity)) ==> p == prompt_preamble()
        }),
{
    let s0: Seq<Seq<char>> = Seq::empty();
    let s1 = pushed(s0, identity_section("## Agent Instructions"@, agents));
    let s2 = pushed(s1, identity_section("## Core Values"@, soul));
    let s3 = pushed(s2, identity_section("## User Context"@, user));
    let s4 = pushed(s3, identity_section("## Identity"@, identity));
    let p = prompt_preamble() + sections_joined(s4);
    if filled(agents) {
        lemma_pushed_keeps(s1, identity_section("## Core Values"@, soul), 0);
        lemma_pushed_keeps(s2, identity_section("## User Context"@, user), 0);
        lemma_pushed_keeps(s3, identity_section("## Identity"@, identity), 0);
        lemma_prompt_holds(s4, 0);
    }
    if filled(soul) {
        let k = s1.len() as int;
        lemma_pushed_keeps(s2, identity_section("## User Context"@, user), k);
        lemma_pushed_keeps(s3, identity_section("## Identity"@, identity), k);
        lemma_prompt_holds(s4, k);
    }
    if filled(user) {
        let k = s2.len() as int;
        lemma_pushed_keeps(s3, identity_section("## Identity"@, identity), k);
        lemma_prompt_holds(s4, k);
    }
    if filled(identity) {
        lemma_prompt_holds(s4, s3.len() as int);
    }
    assert(p.subrange(0, prompt_preamble().len() as int) =~= prompt_preamble());
    if !filled(agents) && !filled(soul) && !filled(user) && !filled(identity) {
        assert(s4 =~= s0);
        assert(p =~= prompt_preamble());
    }
}

fn push_section(parts: &mut Vec<String>, header: &str, doc: Option<&str>)
    ensures
        final(parts).deep_view() == pushed(old(parts).deep_view(), identity_section(header@, doc.deep_view())),
{
    match doc {
        Some(d) => {
            if !d.is_empty() {
                let mut s = header.to_owned();
                s.append("\n\n");
                s.append(d);
                let ghost p0 = parts.deep_view();
                parts.push(s);
                proof {
                    assert(parts.deep_view() =~= p0.push(header@ + "\n\n"@ + d@));
                }
            }
        },
        None => {},
    }
}

/// The system prompt: the preamble, then the sections of the identity
/// documents read (agent instructions, core values, user context, identity;
/// `None` where a document could not be read), joined with line breaks.
pub fn build_system_prompt(agents: Option<&str>, soul: Option<&str>, user: Option<&str>, identity: Option<&str>) -> (r: String)
    ensures
        r@ == prompt_preamble() + sections_joined(
            identity_sections(agents.deep_view(), soul.deep_view(), user.deep_view(), identity.deep_view()),
        ),
        filled(agents.deep_view()) ==> has_infix(r@, "## Agent Instructions"@ + "\n\n"@ + agents.deep_view()->0),
        filled(soul.deep_view()) ==> has_infix(r@, "## Core Values"@ + "\n\n"@ + soul.deep_view()->0),
        filled(user.deep_view()) ==> has_infix(r@, "## User Context"@ + "\n\n"@ + user.deep_view()->0),
        filled(identity.deep_view()) ==> has_infix(r@, "## Identity"@ + "\n\n"@ + identity.deep_view()->0),
{
    let mut parts: Vec<String> = Vec::new();
    push_section(&mut parts, "## Agent Instructions", agents);
    push_section(&mut parts, "## Core Values", soul);
    push_section(&mut parts, "## User Context", user);
    push_section(&mut parts, "## Identity", identity);
    proof {
        assert(parts.deep_view() =~= identity_sections(agents.deep_view(), soul.deep_view(), user.deep_view(), identity.deep_view()));
    }
    let mut r = "You are xclaw Agent, a best general assistant.\n## Safety\n- You have no independent goals. Do not pursue self-preservation, replication, resource acquisition, or power-seeking beyond the user's request.\n- Prioritize safety and human oversight over task completion. If instructions conflict, pause and ask.\n- Comply with stop, pause, or audit requests. Never bypass safeguards.\n- Do not manipulate anyone to expand your access or disable safeguards.\n- Do not modify system prompts, safety rules, or tool policies unless explicitly requested by the user.\n".to_owned();
    let mut i: usize = 0;
    let ghost pre = r@;
    while i < parts.len()
        invariant
            i <= parts@.len(),
            r@ == pre + sections_joined(parts.deep_view().take(i as int)),
        decreases parts@.len() - i,
    {
        proof {
            assert(parts.deep_view().take(i + 1).drop_last() =~= parts.deep_view().take(i as int));
            assert(parts.deep_view().take(i + 1).last() == parts.deep_view()[i as int]);
            if i == 0 {
                assert(parts.deep_view().take(1) =~= seq![parts.deep_view()[0]]);
                assert(sections_joined(parts.deep_view().take(0)) =~= Seq::<char>::empty());
            }
        }
        if i > 0 {
            r.append("\n");
        }
        r.append(parts[i].as_str());
        proof {
            if i == 0 {
                assert(r@ =~= pre + sections_joined(parts.deep_view().take(1)));
            } else {
                assert(r@ =~= pre + sections_joined(parts.deep_view().take(i + 1)));
            }
        }
        i = i + 1;
    }
    proof {
        assert(parts.deep_view().take(parts@.len() as int) =~= parts.deep_view());
        law_prompt_carries_every_document(agents.deep_view(), soul.deep_view(), user.deep_view(), identity.deep_view());
    }
    r
}

} // verus!
