use vstd::prelude::*;

verus! {

/// The contents of a task's result payload.
pub ghost struct OutcomeView {
    pub summary: Seq<char>,
    pub artifacts: Seq<Seq<char>>,
}

/// The result payload of a completed task: a summary and the artifact
/// paths the task produced.
pub struct Outcome {
    pub summary: String,
    pub artifacts: Vec<String>,
}

/// The per-element views of a sequence of strings.
pub open spec fn strings_view(v: Seq<String>) -> Seq<Seq<char>> {
    v.map_values(|s: String| s@)
}

/// Copy a vector of strings, preserving contents.
pub fn clone_strings(v: &Vec<String>) -> (r: Vec<String>)
    ensures
        strings_view(r@) == strings_view(v@),
{
    let r = v.clone();
    assert(strings_view(r@) =~= strings_view(v@));
    r
}

impl View for Outcome {
    type V = OutcomeView;

    open spec fn view(&self) -> OutcomeView {
        OutcomeView { summary: self.summary@, artifacts: strings_view(self.artifacts@) }
    }
}

impl Clone for Outcome {
    fn clone(&self) -> (r: Self)
        ensures
            r@ == self@,
    {
        let r = Outcome { summary: self.summary.clone(), artifacts: clone_strings(&self.artifacts) };
        assert(r@ =~= self@);
        r
    }
}

impl Outcome {
    pub fn new(summary: String, artifacts: Vec<String>) -> (r: Self)
        ensures
            r@ == (OutcomeView { summary: summary@, artifacts: strings_view(artifacts@) }),
    {
        Outcome { summary, artifacts }
    }

    pub fn summary(&self) -> (r: &str)
        ensures
            r@ == self@.summary,
    {
        self.summary.as_str()
    }

    pub fn artifacts(&self) -> (r: &Vec<String>)
        ensures
            strings_view(r@) == self@.artifacts,
    {
        &self.artifacts
    }
}

} // verus!
