//! A skill's definition, and the frontmatter of its `SKILL.md`.
use vstd::prelude::*;
use crate::text::{find, find_seq, starts_with, starts_with_seq, trim, trim_seq};

verus! {

/// The frontmatter of a `SKILL.md`: the skill's name, its description and
/// the tools it brings.
#[derive(Debug)]
pub struct SkillFrontmatter {
    pub name: String,
    pub description: String,
    pub tools: Vec<String>,
}

/// A skill found in the skills directory; `dir` is its directory.
#[derive(Debug)]
pub struct SkillDefinition {
    pub name: String,
    pub description: String,
    pub tools: Vec<String>,
    pub dir: String,
}

pub struct SkillDefinitionView {
    pub name: Seq<char>,
    pub description: Seq<char>,
    pub tools: Seq<Seq<char>>,
    pub dir: Seq<char>,
}

impl View for SkillDefinition {
    type V = SkillDefinitionView;

    open spec fn view(&self) -> SkillDefinitionView {
        SkillDefinitionView {
            name: self.name@,
            description: self.description@,
            tools: self.tools.deep_view(),
            dir: self.dir@,
        }
    }
}

impl Clone for SkillDefinition {
    fn clone(&self) -> (r: Self)
        ensures
            r@ == self@,
    {
        SkillDefinition {
            name: self.name.clone(),
            description: self.description.clone(),
            tools: crate::message::clone_strings(&self.tools),
            dir: self.dir.clone(),
        }
    }
}

/// What loading a skill gives: its prompt and the names of its tools.
#[derive(Debug)]
pub struct LoadResult {
    pub prompt: String,
    pub tool_names: Vec<String>,
}

/// Why a `SKILL.md` has no frontmatter.
#[derive(Debug, Clone, Copy, PartialEq, Eq, Structural)]
pub enum FrontmatterError {
    /// The text does not begin with `---`.
    MissingStart,
    /// No `---` closes the frontmatter.
    MissingEnd,
}

impl FrontmatterError {
    /// The error as text.
    pub fn message(&self) -> (r: &'static str)
        ensures
            r@ == match self {
                FrontmatterError::MissingStart => "SKILL.md must start with YAML frontmatter (---)"@,
                FrontmatterError::MissingEnd => "Missing closing --- in frontmatter"@,
            },
    {
        match self {
            FrontmatterError::MissingStart => "SKILL.md must start with YAML frontmatter (---)",
            FrontmatterError::MissingEnd => "Missing closing --- in frontmatter",
        }
    }
}

/// The frontmatter (YAML text) and the body of a `SKILL.md` with text
/// `content`: once trimmed, the text begins with `---`, and the frontmatter
/// runs up to the next `---`; the body is the rest, trimmed.
pub open spec fn frontmatter_split(content: Seq<char>) -> Result<(Seq<char>, Seq<char>), FrontmatterError> {
    let c = trim_seq(content);
    if !starts_with_seq(c, "---"@) {
        Err(FrontmatterError::MissingStart)
    } else {
        let after = c.skip(3);
        match find_seq(after, "---"@) {
            None => Err(FrontmatterError::MissingEnd),
            Some(e) => Ok((after.take(e), trim_seq(after.skip(e + 3)))),
        }
    }
}

/// The frontmatter and body of a `SKILL.md` (see `frontmatter_split`).
pub fn split_frontmatter(content: &str) -> (r: Result<(String, String), FrontmatterError>)
    ensures
        match r {
            Ok((y, b)) => frontmatter_split(content@) == Ok::<(Seq<char>, Seq<char>), FrontmatterError>((y@, b@)),
            Err(e) => frontmatter_split(content@) == Err::<(Seq<char>, Seq<char>), FrontmatterError>(e),
        },
{
    proof {
        reveal_strlit("---");
    }
    let c = trim(content);
    if !starts_with(c, "---") {
        return Err(FrontmatterError::MissingStart);
    }
    let n = c.unicode_len();
    let after = c.substring_char(3, n);
    proof {
        assert(after@ =~= c@.skip(3));
    }
    match find(after, "---") {
        None => Err(FrontmatterError::MissingEnd),
        Some(e) => {
            let m = after.unicode_len();
            let yaml = after.substring_char(0, e);
            let rest = after.substring_char(e + 3, m);
            let body = trim(rest);
            proof {
                assert(yaml@ =~= after@.take(e as int));
                assert(rest@ =~= after@.skip(e + 3));
            }
            Ok((yaml.to_owned(), body.to_owned()))
        },
    }
}

/// The prompt of a skill: the body of its `SKILL.md`, then each reference
/// document under a `#### Reference:` heading naming its file.
pub open spec fn composed_prompt(body: Seq<char>, refs: Seq<(Seq<char>, Seq<char>)>) -> Seq<char>
    decreases refs.len(),
{
    if refs.len() == 0 {
        body
    } else {
        composed_prompt(body, refs.drop_last()) + "\n\n#### Reference: "@ + refs.last().0 + "\n"@ + refs.last().1
    }
}

/// The prompt of a skill with body `body` and reference documents `refs`
/// (file name and text, in order); see `composed_prompt`.
pub fn compose_prompt(body: String, refs: &Vec<(String, String)>) -> (r: String)
    ensures
        r@ == composed_prompt(body@, refs@.map_values(|e: (String, String)| (e.0@, e.1@))),
{
    let ghost rv = refs@.map_values(|e: (String, String)| (e.0@, e.1@));
    let mut r = body;
    let ghost b0 = r@;
    let mut i: usize = 0;
    proof {
        assert(rv.take(0) =~= Seq::<(Seq<char>, Seq<char>)>::empty());
    }
    while i < refs.len()
        invariant
            rv == refs@.map_values(|e: (String, String)| (e.0@, e.1@)),
            i <= refs@.len(),
            r@ == composed_prompt(b0, rv.take(i as int)),
        decreases refs@.len() - i,
    {
        proof {
            assert(rv.take(i + 1).drop_last() =~= rv.take(i as int));
            assert(rv.take(i + 1).last() == rv[i as int]);
        }
        r.append("\n\n#### Reference: ");
        r.append(refs[i].0.as_str());
        r.append("\n");
        r.append(refs[i].1.as_str());
        i = i + 1;
    }
    proof {
        assert(rv.take(refs@.len() as int) =~= rv);
    }
    r
}

} // verus!
