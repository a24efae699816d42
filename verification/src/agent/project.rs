//! Project-context files: `AGENTS.md`, and a second name that is tried where it is
//! missing or blank.
//!
//! Project-specific instructions for agents stand in a markdown file at the
//! workspace root. A harness reads the files and injects what is chosen here into
//! the system prompt.
use crate::text;
use crate::seqs;
use crate::text::trim_str;
use vstd::prelude::*;

verus! {

/// The preferred name of a context file.
pub const AGENTS_FILE: &'static str = "AGENTS.md";

/// Project instructions loaded from a context file.
#[derive(Debug)]
pub struct ProjectContext {
    /// The file the content came from.
    pub source: String,
    /// Full markdown content.
    pub content: String,
}

#[verifier::ext_equal]
pub struct ProjectView {
    pub source: Seq<char>,
    pub content: Seq<char>,
}

impl View for ProjectContext {
    type V = ProjectView;

    open spec fn view(&self) -> ProjectView {
        ProjectView { source: self.source@, content: self.content@ }
    }
}

impl Clone for ProjectContext {
    fn clone(&self) -> (r: ProjectContext)
        ensures
            r == *self,
    {
        ProjectContext { source: self.source.clone(), content: self.content.clone() }
    }
}

impl ProjectContext {
    /// Render as a system-prompt section.
    pub fn system_prompt_section(&self) -> (r: String)
        ensures
            r@ == "## Project instructions (from "@ + self@.source + ")\n"@ + text::trim(self@.content),
    {
        let mut out = "## Project instructions (from ".to_owned();
        out.push_str(self.source.as_str());
        out.push_str(")\n");
        let body = trim_str(self.content.as_str());
        out.push_str(body.as_str());
        out
    }
}

/// The context files that were read in a directory, in the order of preference;
/// a file that is missing or unreadable is `None`.
pub struct ContextFiles {
    pub agents: Option<ProjectContext>,
    /// The file of the second name.
    pub fallback: Option<ProjectContext>,
}

/// A file with content other than whitespace.
pub open spec fn filled(file: Option<ProjectContext>) -> Option<ProjectView> {
    match file {
        Some(c) => if text::trim(c@.content).len() > 0 {
            Some(c@)
        } else {
            None
        },
        None => None,
    }
}

/// The context of a directory.
pub open spec fn context_of(files: ContextFiles) -> Option<ProjectView> {
    match filled(files.agents) {
        Some(c) => Some(c),
        None => filled(files.fallback),
    }
}

fn non_blank(file: &Option<ProjectContext>) -> (r: Option<ProjectContext>)
    ensures
        match r {
            Some(c) => filled(*file) == Some(c@),
            None => filled(*file) is None,
        },
{
    match file {
        Some(c) => {
            let body = trim_str(c.content.as_str());
            if body.as_str().is_empty() {
                None
            } else {
                Some(c.clone())
            }
        },
        None => None,
    }
}

/// The context of a directory: `AGENTS.md`, or else the fallback. `None` when neither
/// exists with content.
pub fn load_project_context(files: &ContextFiles) -> (r: Option<ProjectContext>)
    ensures
        match r {
            Some(c) => context_of(*files) == Some(c@),
            None => context_of(*files) is None,
        },
{
    match non_blank(&files.agents) {
        Some(c) => Some(c),
        None => non_blank(&files.fallback),
    }
}

/// The contexts of the levels, the outermost first.
pub open spec fn contexts_of(levels: Seq<ContextFiles>) -> Seq<ProjectView> {
    seqs::filter_map(levels.reverse(), |f: ContextFiles| context_of(f))
}

/// The contexts of a directory and those above it, outermost first and nearest
/// last, so that the most specific instructions come last. `levels` starts with the
/// directory itself and goes up.
pub fn load_project_context_walkup(levels: &Vec<ContextFiles>) -> (r: Vec<ProjectContext>)
    ensures
        text::views(r@) == seqs::filter_map(levels@.reverse(), |f: ContextFiles| context_of(f)),
        text::views(r@) == contexts_of(levels@),
{
    let ghost up = levels@.reverse();
    let ghost f = |f: ContextFiles| context_of(f);
    let mut out: Vec<ProjectContext> = Vec::new();
    let mut i: usize = levels.len();
    assert(text::views(out@) =~= seqs::filter_map(up.take(0), f));
    while i > 0
        invariant
            i <= levels@.len(),
            up == levels@.reverse(),
            f == (|f: ContextFiles| context_of(f)),
            text::views(out@) == seqs::filter_map(up.take(levels@.len() - i), f),
        decreases i,
    {
        let ghost k = levels@.len() - i;
        proof {
            assert(up[k] == levels@[i - 1]);
            assert(up.take(k + 1) =~= up.take(k).push(up[k]));
            seqs::lemma_filter_map_push(up.take(k), f, up[k]);
        }
        if let Some(c) = load_project_context(&levels[i - 1]) {
            let ghost before = text::views(out@);
            out.push(c);
            assert(text::views(out@) =~= before.push(c@));
        }
        i -= 1;
    }
    assert(up.take(levels@.len() as int) =~= up);
    out
}

} // verus!
