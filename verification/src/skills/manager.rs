//! The skills of an agent: those found in the skills directory, and those loaded.
use vstd::prelude::*;
use crate::skills::skill::{LoadResult, SkillDefinition, SkillDefinitionView, SkillFrontmatter};
use crate::text::{contains_str, str_eq};

verus! {

/// The skills found, by name, and the skills loaded, by name with their prompt.
#[derive(Debug)]
pub struct SkillManager {
    available: Vec<SkillDefinition>,
    active: Vec<(String, String)>,
    skills_dir: String,
}

pub struct SkillManagerView {
    pub available: Seq<SkillDefinitionView>,
    pub active: Seq<(Seq<char>, Seq<char>)>,
    pub skills_dir: Seq<char>,
}

impl View for SkillManager {
    type V = SkillManagerView;

    closed spec fn view(&self) -> SkillManagerView {
        SkillManagerView {
            available: self.available@.map_values(|d: SkillDefinition| d@),
            active: self.active@.map_values(|e: (String, String)| (e.0@, e.1@)),
            skills_dir: self.skills_dir@,
        }
    }
}

/// Some skill of `ds` is named `name`.
pub open spec fn has_skill(ds: Seq<SkillDefinitionView>, name: Seq<char>) -> bool {
    exists|i: int| 0 <= i < ds.len() && ds[i].name == name
}

/// The skill of `ds` named `name`.
pub open spec fn skill_named(ds: Seq<SkillDefinitionView>, name: Seq<char>) -> SkillDefinitionView {
    ds[choose|i: int| 0 <= i < ds.len() && ds[i].name == name]
}

/// `ds` with `d` kept under its name: the skill of that name replaced in
/// place, or `d` appended.
pub open spec fn put_skill(ds: Seq<SkillDefinitionView>, d: SkillDefinitionView) -> Seq<SkillDefinitionView> {
    if has_skill(ds, d.name) {
        ds.update(choose|i: int| 0 <= i < ds.len() && ds[i].name == d.name, d)
    } else {
        ds.push(d)
    }
}

/// The skill named `name` is loaded in `a`.
pub open spec fn is_loaded(a: Seq<(Seq<char>, Seq<char>)>, name: Seq<char>) -> bool {
    exists|i: int| 0 <= i < a.len() && a[i].0 == name
}

/// The prompt of the loaded skill `name`.
pub open spec fn loaded_prompt(a: Seq<(Seq<char>, Seq<char>)>, name: Seq<char>) -> Seq<char> {
    a[choose|i: int| 0 <= i < a.len() && a[i].0 == name].1
}

/// `a` with `name` loaded with `prompt`: its entry replaced, or appended.
pub open spec fn put_loaded(a: Seq<(Seq<char>, Seq<char>)>, name: Seq<char>, prompt: Seq<char>) -> Seq<(Seq<char>, Seq<char>)> {
    if is_loaded(a, name) {
        a.update(choose|i: int| 0 <= i < a.len() && a[i].0 == name, (name, prompt))
    } else {
        a.push((name, prompt))
    }
}

/// `a` without the entry of `name`.
pub open spec fn without_loaded(a: Seq<(Seq<char>, Seq<char>)>, name: Seq<char>) -> Seq<(Seq<char>, Seq<char>)> {
    a.filter(not_named(name))
}

/// Entries of another name than `name`.
pub open spec fn not_named(name: Seq<char>) -> spec_fn((Seq<char>, Seq<char>)) -> bool {
    |e: (Seq<char>, Seq<char>)| e.0 != name
}

/// The line of the catalog for skill `d`.
pub open spec fn catalog_line(d: SkillDefinitionView) -> Seq<char> {
    "- **"@ + d.name + "**: "@ + d.description
}

/// The lines `ls` joined with line breaks.
pub open spec fn lines_joined(ls: Seq<Seq<char>>) -> Seq<char>
    decreases ls.len(),
{
    if ls.len() == 0 {
        Seq::empty()
    } else if ls.len() == 1 {
        ls[0]
    } else {
        lines_joined(ls.drop_last()) + "\n"@ + ls.last()
    }
}

/// `names` with `more` added, each unless already there, in order.
pub open spec fn union_names(names: Seq<Seq<char>>, more: Seq<Seq<char>>) -> Seq<Seq<char>>
    decreases more.len(),
{
    if more.len() == 0 {
        names
    } else {
        let before = union_names(names, more.drop_last());
        if before.contains(more.last()) {
            before
        } else {
            before.push(more.last())
        }
    }
}

/// The tools of the loaded skills `a` found in `ds`, each once, in order.
pub open spec fn loaded_tools(ds: Seq<SkillDefinitionView>, a: Seq<(Seq<char>, Seq<char>)>) -> Seq<Seq<char>>
    decreases a.len(),
{
    if a.len() == 0 {
        Seq::empty()
    } else {
        let before = loaded_tools(ds, a.drop_last());
        if has_skill(ds, a.last().0) {
            union_names(before, skill_named(ds, a.last().0).tools)
        } else {
            before
        }
    }
}

impl SkillManagerView {
    /// No two skills share a name, and no skill is loaded twice.
    pub open spec fn wf(self) -> bool {
        &&& forall|i: int, j: int|
            0 <= i < self.available.len() && 0 <= j < self.available.len() && i != j ==> self.available[i].name
                != self.available[j].name
        &&& forall|i: int, j: int|
            0 <= i < self.active.len() && 0 <= j < self.active.len() && i != j ==> self.active[i].0 != self.active[j].0
    }
}

/// Why a skill cannot be loaded.
#[derive(Debug, Clone, Copy, PartialEq, Eq, Structural)]
pub enum SkillError {
    /// No skill of that name was found.
    NotFound,
}

/// What loading a skill needs.
#[derive(Debug)]
pub enum LoadStep {
    /// The skill is loaded already.
    Loaded(LoadResult),
    /// The skill's files must be read from its directory.
    ReadFiles { dir: String },
}

impl SkillManager {
    /// No skills, for the skills directory `skills_dir`.
    pub fn new(skills_dir: String) -> (m: Self)
        ensures
            m@.available.len() == 0,
            m@.active.len() == 0,
            m@.skills_dir == skills_dir@,
            m@.wf(),
    {
        let m = SkillManager { available: Vec::new(), active: Vec::new(), skills_dir };
        proof {
            assert(m@.available =~= Seq::empty());
            assert(m@.active =~= Seq::empty());
        }
        m
    }

    /// The skills directory.
    pub fn skills_dir(&self) -> (r: &str)
        ensures
            r@ == self@.skills_dir,
    {
        self.skills_dir.as_str()
    }

    fn skill_index(&self, name: &str) -> (r: Option<usize>)
        ensures
            match r {
                Some(i) => i < self@.available.len() && self@.available[i as int].name == name@,
                None => !has_skill(self@.available, name@),
            },
    {
        let mut i: usize = 0;
        while i < self.available.len()
            invariant
                i <= self@.available.len(),
                self@.available.len() == self.available@.len(),
                forall|j: int| 0 <= j < i ==> self@.available[j].name != name@,
            decreases self@.available.len() - i,
        {
            if str_eq(self.available[i].name.as_str(), name) {
                proof {
                    assert(self@.available[i as int] == self.available@[i as int]@);
                }
                return Some(i);
            }
            proof {
                assert(self@.available[i as int] == self.available@[i as int]@);
            }
            i = i + 1;
        }
        None
    }

    fn active_index(&self, name: &str) -> (r: Option<usize>)
        ensures
            match r {
                Some(i) => i < self@.active.len() && self@.active[i as int].0 == name@,
                None => !is_loaded(self@.active, name@),
            },
    {
        let mut i: usize = 0;
        while i < self.active.len()
            invariant
                i <= self@.active.len(),
                self@.active.len() == self.active@.len(),
                forall|j: int| 0 <= j < i ==> self@.active[j].0 != name@,
            decreases self@.active.len() - i,
        {
            if str_eq(self.active[i].0.as_str(), name) {
                return Some(i);
            }
            i = i + 1;
        }
        None
    }

    /// Keep the skill described by `fm`, found in directory `dir`, under its
    /// name (see `put_skill`).
    pub fn register(&mut self, fm: SkillFrontmatter, dir: String)
        requires
            old(self)@.wf(),
        ensures
            final(self)@.wf(),
            final(self)@ == (SkillManagerView {
                available: put_skill(
                    old(self)@.available,
                    SkillDefinitionView { name: fm.name@, description: fm.description@, tools: fm.tools.deep_view(), dir: dir@ },
                ),
                ..old(self)@
            }),
    {
        let ghost a0 = self@.available;
        let d = SkillDefinition { name: fm.name, description: fm.description, tools: fm.tools, dir };
        let ghost dv = d@;
        match self.skill_index(d.name.as_str()) {
            Some(i) => {
                self.available.set(i, d);
                proof {
                    let k = choose|k: int| 0 <= k < a0.len() && a0[k].name == dv.name;
                    assert(k == i);
                    assert(self@.available =~= a0.update(i as int, dv));
                }
            },
            None => {
                self.available.push(d);
                proof {
                    assert(self@.available =~= a0.push(dv));
                }
            },
        }
        proof {
            assert(self@.active == old(self)@.active);
            let av = self@.available;
            assert forall|i: int, j: int| 0 <= i < av.len() && 0 <= j < av.len() && i != j implies av[i].name != av[j].name by {
                if has_skill(a0, dv.name) {
                    let k = choose|k: int| 0 <= k < a0.len() && a0[k].name == dv.name;
                    assert(av[i].name == a0[i].name);
                    assert(av[j].name == a0[j].name);
                } else {
                    if i == a0.len() {
                        assert(av[j] == a0[j]);
                    } else if j == a0.len() {
                        assert(av[i] == a0[i]);
                    } else {
                        assert(av[i] == a0[i]);
                        assert(av[j] == a0[j]);
                    }
                }
            }
        }
    }

    /// The first step of loading skill `name`: not found, loaded already
    /// (its prompt and tools), or its files to read.
    pub fn begin_load(&self, name: &str) -> (r: Result<LoadStep, SkillError>)
        requires
            self@.wf(),
        ensures
            !has_skill(self@.available, name@) ==> r == Err::<LoadStep, SkillError>(SkillError::NotFound),
            has_skill(self@.available, name@) ==> (r matches Ok(step) && {
                let d = skill_named(self@.available, name@);
                match step {
                    LoadStep::Loaded(lr) => {
                        &&& is_loaded(self@.active, name@)
                        &&& lr.prompt@ == loaded_prompt(self@.active, name@)
                        &&& lr.tool_names.deep_view() == d.tools
                    },
                    LoadStep::ReadFiles { dir } => !is_loaded(self@.active, name@) && dir@ == d.dir,
                }
            }),
    {
        match self.skill_index(name) {
            None => Err(SkillError::NotFound),
            Some(i) => {
                proof {
                    let k = choose|k: int| 0 <= k < self@.available.len() && self@.available[k].name == name@;
                    assert(k == i);
                    assert(self@.available[i as int] == self.available@[i as int]@);
                }
                let d = &self.available[i];
                match self.active_index(name) {
                    Some(j) => {
                        proof {
                            let k = choose|k: int| 0 <= k < self@.active.len() && self@.active[k].0 == name@;
                            assert(k == j);
                        }
                        Ok(LoadStep::Loaded(LoadResult {
                            prompt: self.active[j].1.clone(),
                            tool_names: crate::message::clone_strings(&d.tools),
                        }))
                    },
                    None => Ok(LoadStep::ReadFiles { dir: d.dir.clone() }),
                }
            },
        }
    }

    /// Load skill `name` with the prompt `prompt` composed from its files
    /// (see `compose_prompt`); gives its prompt and tools.
    pub fn activate(&mut self, name: &str, prompt: String) -> (r: Result<LoadResult, SkillError>)
        requires
            old(self)@.wf(),
        ensures
            final(self)@.wf(),
            !has_skill(old(self)@.available, name@) ==> r == Err::<LoadResult, SkillError>(SkillError::NotFound)
                && final(self)@ == old(self)@,
            has_skill(old(self)@.available, name@) ==> (r matches Ok(lr) && {
                &&& lr.prompt@ == prompt@
                &&& lr.tool_names.deep_view() == skill_named(old(self)@.available, name@).tools
                &&& final(self)@ == (SkillManagerView { active: put_loaded(old(self)@.active, name@, prompt@), ..old(self)@ })
            }),
    {
        match self.skill_index(name) {
            None => Err(SkillError::NotFound),
            Some(i) => {
                proof {
                    let k = choose|k: int| 0 <= k < self@.available.len() && self@.available[k].name == name@;
                    assert(k == i);
                    assert(self@.available[i as int] == self.available@[i as int]@);
                }
                let tools = crate::message::clone_strings(&self.available[i].tools);
                let ghost a0 = self@.active;
                let out = prompt.clone();
                match self.active_index(name) {
                    Some(j) => {
                        self.active.set(j, (name.to_owned(), prompt));
                        proof {
                            let k = choose|k: int| 0 <= k < a0.len() && a0[k].0 == name@;
                            assert(k == j);
                            assert(self@.active =~= a0.update(j as int, (name@, out@)));
                        }
                    },
                    None => {
                        self.active.push((name.to_owned(), prompt));
                        proof {
                            assert(self@.active =~= a0.push((name@, out@)));
                        }
                    },
                }
                proof {
                    let av = self@.active;
                    assert forall|x: int, y: int| 0 <= x < av.len() && 0 <= y < av.len() && x != y implies av[x].0 != av[y].0 by {
                        if x < a0.len() && y < a0.len() {
                            if av[x] != a0[x] {
                                assert(av[x].0 == name@);
                            }
                            if av[y] != a0[y] {
                                assert(av[y].0 == name@);
                            }
                        }
                    }
                }
                Ok(LoadResult { prompt: out, tool_names: tools })
            },
        }
    }

    /// Unload skill `name`; nothing happens when it is not loaded.
    pub fn unload(&mut self, name: &str)
        requires
            old(self)@.wf(),
        ensures
            final(self)@.wf(),
            final(self)@ == (SkillManagerView { active: without_loaded(old(self)@.active, name@), ..old(self)@ }),
    {
        let ghost a0 = self@.active;
        let ghost d0 = self@.available;
        match self.active_index(name) {
            None => {
                proof {
                    lemma_filter_all(a0, not_named(name@));
                }
            },
            Some(j) => {
                self.active.remove(j);
                proof {
                    assert(self@.available == d0);
                    assert(self@.active =~= a0.remove(j as int));
                    lemma_filter_remove_one(a0, j as int, name@);
                    let av = self@.active;
                    assert forall|x: int, y: int| 0 <= x < av.len() && 0 <= y < av.len() && x != y implies av[x].0 != av[y].0 by {
                        let x0 = if x < j { x } else { x + 1 };
                        let y0 = if y < j { y } else { y + 1 };
                        assert(av[x] == a0[x0]);
                        assert(av[y] == a0[y0]);
                    }
                }
            },
        }
    }

    /// Whether skill `name` is loaded.
    pub fn is_active(&self, name: &str) -> (r: bool)
        ensures
            r == is_loaded(self@.active, name@),
    {
        self.active_index(name).is_some()
    }

    /// Whether no skill was found.
    pub fn is_empty(&self) -> (r: bool)
        ensures
            r == (self@.available.len() == 0),
    {
        self.available.len() == 0
    }

    /// The loaded skills with their prompts, in order.
    pub fn active_prompts(&self) -> (r: Vec<(String, String)>)
        ensures
            r@.map_values(|e: (String, String)| (e.0@, e.1@)) == self@.active,
    {
        let mut r: Vec<(String, String)> = Vec::new();
        let mut i: usize = 0;
        while i < self.active.len()
            invariant
                i <= self.active@.len(),
                self@.active.len() == self.active@.len(),
                r@.map_values(|e: (String, String)| (e.0@, e.1@)) == self@.active.take(i as int),
            decreases self.active@.len() - i,
        {
            let ghost r0 = r@;
            r.push((self.active[i].0.clone(), self.active[i].1.clone()));
            proof {
                assert(self@.active[i as int] == (self.active@[i as int].0@, self.active@[i as int].1@));
                assert(r@.map_values(|e: (String, String)| (e.0@, e.1@)) =~= r0.map_values(|e: (String, String)| (e.0@, e.1@)).push(
                    self@.active[i as int],
                ));
                assert(r@.map_values(|e: (String, String)| (e.0@, e.1@)) =~= self@.active.take(i + 1));
            }
            i = i + 1;
        }
        proof {
            assert(self@.active.take(self.active@.len() as int) =~= self@.active);
        }
        r
    }

    /// The catalog of the skills found, one line per skill (see
    /// `catalog_line`), joined with line breaks; empty when none was found.
    pub fn available_catalog(&self) -> (r: String)
        ensures
            r@ == lines_joined(self@.available.map_values(|d: SkillDefinitionView| catalog_line(d))),
    {
        let ghost ls = self@.available.map_values(|d: SkillDefinitionView| catalog_line(d));
        let mut r = String::new();
        let mut i: usize = 0;
        proof {
            assert(ls.take(0) =~= Seq::<Seq<char>>::empty());
        }
        while i < self.available.len()
            invariant
                ls == self@.available.map_values(|d: SkillDefinitionView| catalog_line(d)),
                i <= self.available@.len(),
                self@.available.len() == self.available@.len(),
                r@ == lines_joined(ls.take(i as int)),
            decreases self.available@.len() - i,
        {
            proof {
                assert(ls.take(i + 1).drop_last() =~= ls.take(i as int));
                assert(ls.take(i + 1).last() == ls[i as int]);
                assert(self@.available[i as int] == self.available@[i as int]@);
                if i == 0 {
                    assert(ls.take(1) =~= seq![ls[0]]);
                }
            }
            if i > 0 {
                r.append("\n");
            }
            let d = &self.available[i];
            r.append("- **");
            r.append(d.name.as_str());
            r.append("**: ");
            r.append(d.description.as_str());
            i = i + 1;
        }
        proof {
            assert(ls.take(self.available@.len() as int) =~= ls);
        }
        r
    }

    /// The tools of the loaded skills, each once (see `loaded_tools`).
    pub fn active_tool_names(&self) -> (r: Vec<String>)
        requires
            self@.wf(),
        ensures
            r.deep_view() == loaded_tools(self@.available, self@.active),
    {
        let mut r: Vec<String> = Vec::new();
        let mut i: usize = 0;
        proof {
            assert(r.deep_view() =~= loaded_tools(self@.available, self@.active.take(0)));
        }
        while i < self.active.len()
            invariant
                self@.wf(),
                i <= self.active@.len(),
                self@.active.len() == self.active@.len(),
                r.deep_view() == loaded_tools(self@.available, self@.active.take(i as int)),
            decreases self.active@.len() - i,
        {
            proof {
                assert(self@.active.take(i + 1).drop_last() =~= self@.active.take(i as int));
                assert(self@.active.take(i + 1).last() == self@.active[i as int]);
            }
            match self.skill_index(self.active[i].0.as_str()) {
                Some(k) => {
                    proof {
                        let c = choose|c: int| 0 <= c < self@.available.len() && self@.available[c].name == self@.active[i as int].0;
                        assert(c == k);
                        assert(self@.available[k as int] == self.available@[k as int]@);
                    }
                    let tools = &self.available[k].tools;
                    let ghost before = r.deep_view();
                    let mut t: usize = 0;
                    while t < tools.len()
                        invariant
                            t <= tools@.len(),
                            r.deep_view() == union_names(before, tools.deep_view().take(t as int)),
                        decreases tools@.len() - t,
                    {
                        proof {
                            assert(tools.deep_view().take(t + 1).drop_last() =~= tools.deep_view().take(t as int));
                            assert(tools.deep_view().take(t + 1).last() == tools.deep_view()[t as int]);
                        }
                        if !contains_str(&r, tools[t].as_str()) {
                            let ghost r0 = r.deep_view();
                            r.push(tools[t].clone());
                            proof {
                                assert(r.deep_view() =~= r0.push(tools.deep_view()[t as int]));
                            }
                        }
                        t = t + 1;
                    }
                    proof {
                        assert(tools.deep_view().take(tools@.len() as int) =~= tools.deep_view());
                    }
                },
                None => {},
            }
            i = i + 1;
        }
        proof {
            assert(self@.active.take(self.active@.len() as int) =~= self@.active);
        }
        r
    }
}

proof fn lemma_filter_all<A>(s: Seq<A>, p: spec_fn(A) -> bool)
    requires
        forall|i: int| 0 <= i < s.len() ==> p(s[i]),
    ensures
        s.filter(p) == s,
    decreases s.len(),
{
    reveal(Seq::filter);
    if s.len() > 0 {
        lemma_filter_all(s.drop_last(), p);
        assert(s.drop_last().push(s.last()) =~= s);
    }
}

proof fn lemma_filter_remove_one(a: Seq<(Seq<char>, Seq<char>)>, j: int, name: Seq<char>)
    requires
        0 <= j < a.len(),
        a[j].0 == name,
        forall|x: int, y: int| 0 <= x < a.len() && 0 <= y < a.len() && x != y ==> a[x].0 != a[y].0,
    ensures
        a.filter(not_named(name)) == a.remove(j),
    decreases a.len(),
{
    reveal(Seq::filter);
    let p = not_named(name);
    if j == a.len() - 1 {
        assert forall|i: int| 0 <= i < a.drop_last().len() implies p(a.drop_last()[i]) by {
            assert(a[i].0 != a[j].0);
        }
        lemma_filter_all(a.drop_last(), p);
        assert(a.remove(j) =~= a.drop_last());
    } else {
        lemma_filter_remove_one(a.drop_last(), j, name);
        assert(a.last().0 != name);
        assert(a.remove(j) =~= a.drop_last().remove(j).push(a.last()));
    }
}

} // verus!

verus! {

/// Law: a skill just loaded is active, with the prompt it was loaded with;
/// a second load finds it there (see `SkillManager::begin_load`).
pub proof fn law_loaded_skill_is_active(a: Seq<(Seq<char>, Seq<char>)>, name: Seq<char>, prompt: Seq<char>)
    requires
        forall|i: int, j: int| 0 <= i < a.len() && 0 <= j < a.len() && i != j ==> a[i].0 != a[j].0,
    ensures
        is_loaded(put_loaded(a, name, prompt), name),
        loaded_prompt(put_loaded(a, name, prompt), name) == prompt,
{
    let r = put_loaded(a, name, prompt);
    if is_loaded(a, name) {
        let k = choose|i: int| 0 <= i < a.len() && a[i].0 == name;
        assert(r[k] == (name, prompt));
        let c = choose|i: int| 0 <= i < r.len() && r[i].0 == name;
        if c != k {
            assert(r[c] == a[c]);
        }
    } else {
        assert(r[a.len() as int] == (name, prompt));
        let c = choose|i: int| 0 <= i < r.len() && r[i].0 == name;
        if c != a.len() {
            assert(r[c] == a[c]);
        }
    }
}

/// Law: a skill unloaded is not active, and the other loaded skills stay.
pub proof fn law_unloaded_skill_is_inactive(a: Seq<(Seq<char>, Seq<char>)>, name: Seq<char>, other: Seq<char>)
    requires
        other != name,
    ensures
        !is_loaded(without_loaded(a, name), name),
        is_loaded(without_loaded(a, name), other) == is_loaded(a, other),
{
    let r = without_loaded(a, name);
    if is_loaded(r, name) {
        let i = choose|i: int| 0 <= i < r.len() && r[i].0 == name;
        a.lemma_filter_pred(not_named(name), i);
    }
    if is_loaded(a, other) {
        let i = choose|i: int| 0 <= i < a.len() && a[i].0 == other;
        a.lemma_filter_contains(not_named(name), i);
        let j = choose|j: int| 0 <= j < r.len() && r[j] == a[i];
        assert(r[j].0 == other);
    }
    if is_loaded(r, other) {
        let i = choose|i: int| 0 <= i < r.len() && r[i].0 == other;
        assert(r.contains(r[i]));
        a.lemma_filter_contains_rev(not_named(name), r[i]);
        let j = choose|j: int| 0 <= j < a.len() && a[j] == r[i];
        assert(a[j].0 == other);
    }
}

} // verus!
