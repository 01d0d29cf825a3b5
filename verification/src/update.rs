use vstd::prelude::*;

verus! {

/// One update: an opaque JSON document, carried as its text.
/// The dispatch engine never looks inside it.
pub struct Update {
    pub body: String,
}

impl View for Update {
    type V = Seq<char>;

    open spec fn view(&self) -> Seq<char> {
        self.body@
    }
}

impl Update {
    pub fn new(body: String) -> (u: Update)
        ensures
            u@ == body@,
    {
        Update { body }
    }

    /// A copy carrying the same text.
    pub fn duplicate(&self) -> (u: Update)
        ensures
            u@ == self@,
    {
        Update { body: crate::text::clone_string(&self.body) }
    }
}

/// One outbound HTTP POST owed to a webhook leaf: the dispatch engine
/// computes these; delivery itself is fire-and-forget and happens outside.
pub struct Post {
    pub url: String,
    pub body: Update,
}

/// The mathematical content of a `Post`.
pub ghost struct PostV {
    pub url: Seq<char>,
    pub body: Seq<char>,
}

impl View for Post {
    type V = PostV;

    open spec fn view(&self) -> PostV {
        PostV { url: self.url@, body: self.body@ }
    }
}

/// The views of a sequence of posts.
pub open spec fn posts_view(ps: Seq<Post>) -> Seq<PostV> {
    ps.map_values(|p: Post| p@)
}

/// The views of a sequence of updates.
pub open spec fn updates_view(us: Seq<Update>) -> Seq<Seq<char>> {
    us.map_values(|u: Update| u@)
}

} // verus!
