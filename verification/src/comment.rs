use vstd::prelude::*;

verus! {

/// The contents of one comment on a task.
pub ghost struct CommentView {
    pub id: Seq<char>,
    pub text: Seq<char>,
    pub created_at: int,
}

/// One comment on a task. Comments are append-only and keep creation order.
pub struct Comment {
    pub id: String,
    pub text: String,
    /// Creation time, in milliseconds since the epoch.
    pub created_at: i64,
}

impl View for Comment {
    type V = CommentView;

    open spec fn view(&self) -> CommentView {
        CommentView { id: self.id@, text: self.text@, created_at: self.created_at as int }
    }
}

impl Clone for Comment {
    fn clone(&self) -> (r: Self)
        ensures
            r@ == self@,
    {
        Comment { id: self.id.clone(), text: self.text.clone(), created_at: self.created_at }
    }
}

impl Comment {
    pub fn new(id: String, text: String, created_at: i64) -> (r: Self)
        ensures
            r@ == (CommentView { id: id@, text: text@, created_at: created_at as int }),
    {
        Comment { id, text, created_at }
    }

    pub fn id(&self) -> (r: &str)
        ensures
            r@ == self@.id,
    {
        self.id.as_str()
    }

    pub fn text(&self) -> (r: &str)
        ensures
            r@ == self@.text,
    {
        self.text.as_str()
    }

    pub fn created_at(&self) -> (r: i64)
        ensures
            r as int == self@.created_at,
    {
        self.created_at
    }
}

/// The per-element views of a sequence of comments.
pub open spec fn comments_view(v: Seq<Comment>) -> Seq<CommentView> {
    v.map_values(|c: Comment| c@)
}

/// Copy a vector of comments, preserving contents.
pub fn clone_comments(v: &Vec<Comment>) -> (r: Vec<Comment>)
    ensures
        comments_view(r@) == comments_view(v@),
{
    let mut r: Vec<Comment> = Vec::new();
    let mut i: usize = 0;
    while i < v.len()
        invariant
            i <= v.len(),
            r@.len() == i,
            forall|k: int| 0 <= k < i ==> r@[k]@ == v@[k]@,
        decreases v.len() - i,
    {
        r.push(v[i].clone());
        i = i + 1;
    }
    assert(comments_view(r@) =~= comments_view(v@));
    r
}

} // verus!
