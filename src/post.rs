use vstd::prelude::*;

use crate::caller::Caller;

verus! {

/// The closed set of categories a post can be filed under. No other value
/// can be expressed, so the store never meets an out-of-range category.
#[derive(Clone, Copy, Debug, PartialEq, Eq, Structural)]
pub enum Category {
    Announcement,
    Event,
    Classified,
}

/// The mathematical value of a post: what every field holds.
pub struct PostView {
    pub id: u64,
    pub author: Seq<u8>,
    pub title: Seq<char>,
    pub content: Seq<char>,
    pub category: Category,
    pub timestamp: u64,
}

/// A record of the store.
#[derive(Clone, Debug)]
pub struct Post {
    pub id: u64,
    pub author: Caller,
    pub title: String,
    pub content: String,
    pub category: Category,
    pub timestamp: u64,
}

impl View for Post {
    type V = PostView;

    open spec fn view(&self) -> PostView {
        PostView {
            id: self.id,
            author: self.author@,
            title: self.title@,
            content: self.content@,
            category: self.category,
            timestamp: self.timestamp,
        }
    }
}

impl Post {
    /// A copy of this post, equal to it in every field.
    pub fn duplicate(&self) -> (r: Post)
        ensures
            r@ == self@,
    {
        Post {
            id: self.id,
            author: self.author.duplicate(),
            title: self.title.clone(),
            content: self.content.clone(),
            category: self.category,
            timestamp: self.timestamp,
        }
    }
}

} // verus!
