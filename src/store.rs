use vstd::prelude::*;

use crate::caller::Caller;
use crate::post::{Category, Post, PostView};

verus! {

/// Why an operation on an existing post was refused.
#[derive(Clone, Copy, Debug, PartialEq, Eq, Structural)]
pub enum StoreError {
    /// No post with the given id is in the store.
    NotFound,
    /// The post exists, but the caller is not its author.
    Unauthorized,
}

/// The mathematical value of a store: the posts it holds, by id, and the id
/// that the next created post will get.
pub struct StoreView {
    pub posts: Map<u64, PostView>,
    pub next_id: u64,
}

/// What `update_post` is asked to change: each present field replaces the
/// post's field, each absent one leaves it alone.
pub open spec fn edited(
    p: PostView,
    title: Option<Seq<char>>,
    content: Option<Seq<char>>,
    category: Option<Category>,
) -> PostView {
    PostView {
        title: match title {
            Some(t) => t,
            None => p.title,
        },
        content: match content {
            Some(c) => c,
            None => p.content,
        },
        category: match category {
            Some(c) => c,
            None => p.category,
        },
        ..p
    }
}

impl StoreView {
    /// Every post is stored under its own id, and every id in use lies below
    /// the next one to be issued.
    pub open spec fn wf(self) -> bool {
        forall|id: u64| #[trigger]
            self.posts.contains_key(id) ==> self.posts[id].id == id && id < self.next_id
    }

    /// The post stored under `id`, if any.
    pub open spec fn lookup(self, id: u64) -> Option<PostView> {
        if self.posts.contains_key(id) {
            Some(self.posts[id])
        } else {
            None
        }
    }

    /// The posts of the given category, by id.
    pub open spec fn in_category(self, category: Category) -> Map<u64, PostView> {
        in_category_of(self.posts, category)
    }

    /// The post that a create on this store makes.
    pub open spec fn created_post(
        self,
        author: Seq<u8>,
        title: Seq<char>,
        content: Seq<char>,
        category: Category,
        timestamp: u64,
    ) -> PostView {
        PostView { id: self.next_id, author, title, content, category, timestamp }
    }

    /// The store after a create.
    pub open spec fn after_create(
        self,
        author: Seq<u8>,
        title: Seq<char>,
        content: Seq<char>,
        category: Category,
        timestamp: u64,
    ) -> StoreView {
        StoreView {
            posts: self.posts.insert(
                self.next_id,
                self.created_post(author, title, content, category, timestamp),
            ),
            next_id: (self.next_id + 1) as u64,
        }
    }

    /// Whether `caller` may change or remove the post under `id`.
    pub open spec fn write_check(self, caller: Seq<u8>, id: u64) -> Result<(), StoreError> {
        if !self.posts.contains_key(id) {
            Err(StoreError::NotFound)
        } else if self.posts[id].author != caller {
            Err(StoreError::Unauthorized)
        } else {
            Ok(())
        }
    }

    /// The store after an update; unchanged where the update is refused.
    pub open spec fn after_update(
        self,
        caller: Seq<u8>,
        id: u64,
        title: Option<Seq<char>>,
        content: Option<Seq<char>>,
        category: Option<Category>,
    ) -> StoreView {
        if self.write_check(caller, id) is Ok {
            StoreView {
                posts: self.posts.insert(id, edited(self.posts[id], title, content, category)),
                next_id: self.next_id,
            }
        } else {
            self
        }
    }

    /// The store after a delete; unchanged where the delete is refused.
    pub open spec fn after_delete(self, caller: Seq<u8>, id: u64) -> StoreView {
        if self.write_check(caller, id) is Ok {
            StoreView { posts: self.posts.remove(id), next_id: self.next_id }
        } else {
            self
        }
    }
}

/// The in-memory store: posts kept in ascending id order, and the counter
/// from which ids are issued.
pub struct BulletinBoardState {
    posts: Vec<Post>,
    post_counter: u64,
}

impl View for BulletinBoardState {
    type V = StoreView;

    closed spec fn view(&self) -> StoreView {
        StoreView { posts: map_of(views(self.posts@)), next_id: self.post_counter }
    }
}

impl BulletinBoardState {
    /// The stored posts in the order they are kept.
    closed spec fn entries(&self) -> Seq<PostView> {
        views(self.posts@)
    }

    /// Posts are kept in ascending id order, all below the counter.
    pub closed spec fn wf(&self) -> bool {
        &&& ascending(self.entries())
        &&& forall|i: int| 0 <= i < self.entries().len() ==> #[trigger] self.entries()[i].id < self.post_counter
    }

    /// A well-formed store has a well-formed value, to which the laws of
    /// the store apply.
    pub proof fn lemma_view_wf(&self)
        requires
            self.wf(),
        ensures
            self@.wf(),
    {
        lemma_map_of_index(self.entries());
    }

    /// An empty store that will issue id 0 first.
    pub fn new() -> (r: BulletinBoardState)
        ensures
            r.wf(),
            r@.posts.is_empty(),
            r@.next_id == 0,
    {
        let r = BulletinBoardState { posts: Vec::new(), post_counter: 0 };
        assert(r@.posts =~= Map::empty());
        r
    }

    /// The id that the next created post will get.
    pub fn next_id(&self) -> (r: u64)
        ensures
            r == self@.next_id,
    {
        self.post_counter
    }

    /// Where the post with the given id is kept, if it is there.
    fn position(&self, id: u64) -> (r: Option<usize>)
        requires
            self.wf(),
        ensures
            match r {
                Some(i) => i < self.posts@.len() && self.posts@[i as int].id == id,
                None => !self@.posts.contains_key(id),
            },
    {
        let mut i: usize = 0;
        while i < self.posts.len()
            invariant
                i <= self.posts@.len(),
                forall|j: int| 0 <= j < i ==> self.posts@[j].id != id,
            decreases self.posts@.len() - i,
        {
            if self.posts[i].id == id {
                return Some(i);
            }
            i += 1;
        }
        proof {
            lemma_map_of_index(self.entries());
            if self@.posts.contains_key(id) {
                let j = choose|j: int| 0 <= j < self.entries().len() && self.entries()[j].id == id;
                assert(self.posts@[j].id == self.entries()[j].id);
            }
        }
        None
    }

    /// Files a new post by `caller`, made at `timestamp`, under the next id,
    /// and returns that id. Ids are never issued twice.
    pub fn create_post(
        &mut self,
        caller: &Caller,
        title: String,
        content: String,
        category: Category,
        timestamp: u64,
    ) -> (r: u64)
        requires
            old(self).wf(),
            old(self)@.next_id < u64::MAX,
        ensures
            final(self).wf(),
            r == old(self)@.next_id,
            !old(self)@.posts.contains_key(r),
            final(self)@ == old(self)@.after_create(caller@, title@, content@, category, timestamp),
    {
        let post_id = self.post_counter;
        let post = Post {
            id: post_id,
            author: caller.duplicate(),
            title,
            content,
            category,
            timestamp,
        };
        proof {
            self.lemma_view_wf();
            lemma_map_of_push(self.entries(), post@);
        }
        self.posts.push(post);
        self.post_counter = post_id + 1;
        proof {
            assert(self.entries() =~= old(self).entries().push(post@));
        }
        post_id
    }

    /// The post with the given id, if the store holds it.
    pub fn get_post(&self, id: u64) -> (r: Option<Post>)
        requires
            self.wf(),
        ensures
            match r {
                Some(p) => self@.lookup(id) == Some(p@),
                None => self@.lookup(id) is None,
            },
    {
        match self.position(id) {
            Some(i) => {
                proof {
                    lemma_map_of_index(self.entries());
                    assert(self.entries()[i as int] == self.posts@[i as int]@);
                }
                Some(self.posts[i].duplicate())
            },
            None => None,
        }
    }

    /// Every stored post, in ascending id order.
    pub fn get_all_posts(&self) -> (r: Vec<Post>)
        requires
            self.wf(),
        ensures
            ascending(views(r@)),
            map_of(views(r@)) == self@.posts,
    {
        let mut r: Vec<Post> = Vec::new();
        let mut i: usize = 0;
        while i < self.posts.len()
            invariant
                i <= self.posts@.len(),
                views(r@) == self.entries().take(i as int),
            decreases self.posts@.len() - i,
        {
            let p = self.posts[i].duplicate();
            let ghost before = r@;
            r.push(p);
            proof {
                assert(p@ == self.entries()[i as int]);
                assert(views(r@) =~= views(before).push(p@));
                assert(self.entries().take(i + 1) =~= self.entries().take(i as int).push(p@));
            }
            i += 1;
        }
        assert(views(r@) =~= self.entries());
        r
    }

    /// Every stored post of the given category, in ascending id order.
    pub fn get_posts_by_category(&self, category: Category) -> (r: Vec<Post>)
        requires
            self.wf(),
        ensures
            ascending(views(r@)),
            map_of(views(r@)) == self@.in_category(category),
            forall|p: PostView|
                views(r@).contains(p) <==> (self@.posts.contains_value(p) && p.category
                    == category),
    {
        let ghost s = self.entries();
        let mut r: Vec<Post> = Vec::new();
        let mut i: usize = 0;
        while i < self.posts.len()
            invariant
                s == self.entries(),
                ascending(s),
                i <= s.len(),
                ascending(views(r@)),
                map_of(views(r@)) == in_category_of(map_of(s.take(i as int)), category),
                forall|j: int, k: int|
                    0 <= j < r@.len() && i <= k < s.len() ==> #[trigger] views(r@)[j].id
                        < #[trigger] s[k].id,
            decreases s.len() - i,
        {
            proof {
                assert(s.take(i + 1) =~= s.take(i as int).push(s[i as int]));
                lemma_map_of_push(s.take(i as int), s[i as int]);
                assert(map_of(s.take(i + 1)) == map_of(s.take(i as int)).insert(
                    s[i as int].id,
                    s[i as int],
                ));
                assert(!map_of(s.take(i as int)).contains_key(s[i as int].id));
            }
            if self.posts[i].category == category {
                let p = self.posts[i].duplicate();
                let ghost before = r@;
                proof {
                    assert(p@ == s[i as int]);
                    lemma_map_of_push(views(r@), p@);
                }
                r.push(p);
                proof {
                    assert(views(r@) =~= views(before).push(p@));
                }
            }
            i += 1;
            proof {
                assert(map_of(views(r@)) =~= in_category_of(map_of(s.take(i as int)), category));
            }
        }
        assert(s.take(s.len() as int) =~= s);
        proof {
            assert(map_of(views(r@)) =~= self@.in_category(category));
            let rv = views(r@);
            lemma_map_of_index(rv);
            assert forall|p: PostView|
                rv.contains(p) <==> (self@.posts.contains_value(p) && p.category == category) by {
                if rv.contains(p) {
                    let j = choose|j: int| 0 <= j < rv.len() && rv[j] == p;
                    assert(map_of(rv).contains_key(rv[j].id));
                    assert(self@.posts.contains_key(p.id) && self@.posts[p.id] == p);
                }
                if self@.posts.contains_value(p) && p.category == category {
                    let k = choose|k: u64| self@.posts.contains_key(k) && self@.posts[k] == p;
                    assert(map_of(rv).contains_key(k));
                    let j = choose|j: int| 0 <= j < rv.len() && rv[j].id == k;
                    assert(map_of(rv).contains_key(rv[j].id));
                    assert(rv[j] == p);
                }
            }
        }
        r
    }

    /// Changes the fields of post `id` that are given, if `caller` wrote it.
    /// The author, the id and the timestamp never change; a refused update
    /// changes nothing.
    pub fn update_post(
        &mut self,
        caller: &Caller,
        id: u64,
        title: Option<String>,
        content: Option<String>,
        category: Option<Category>,
    ) -> (r: Result<(), StoreError>)
        requires
            old(self).wf(),
        ensures
            final(self).wf(),
            r == old(self)@.write_check(caller@, id),
            final(self)@ == old(self)@.after_update(
                caller@,
                id,
                opt_chars(title),
                opt_chars(content),
                category,
            ),
    {
        let i = match self.position(id) {
            Some(i) => i,
            None => {
                return Err(StoreError::NotFound);
            },
        };
        proof {
            lemma_map_of_index(self.entries());
            assert(self.entries()[i as int] == self.posts@[i as int]@);
        }
        if self.posts[i].author != *caller {
            return Err(StoreError::Unauthorized);
        }
        let mut post = self.posts[i].duplicate();
        match title {
            Some(t) => {
                post.title = t;
            },
            None => {},
        }
        match content {
            Some(c) => {
                post.content = c;
            },
            None => {},
        }
        match category {
            Some(c) => {
                post.category = c;
            },
            None => {},
        }
        proof {
            lemma_map_of_update(self.entries(), i as int, post@);
        }
        self.posts.set(i, post);
        proof {
            assert(self.entries() =~= old(self).entries().update(i as int, post@));
        }
        Ok(())
    }

    /// Removes post `id`, if `caller` wrote it; a refused delete changes
    /// nothing. The id is not issued again.
    pub fn delete_post(&mut self, caller: &Caller, id: u64) -> (r: Result<(), StoreError>)
        requires
            old(self).wf(),
        ensures
            final(self).wf(),
            r == old(self)@.write_check(caller@, id),
            final(self)@ == old(self)@.after_delete(caller@, id),
    {
        let i = match self.position(id) {
            Some(i) => i,
            None => {
                return Err(StoreError::NotFound);
            },
        };
        proof {
            lemma_map_of_index(self.entries());
            assert(self.entries()[i as int] == self.posts@[i as int]@);
        }
        if self.posts[i].author != *caller {
            return Err(StoreError::Unauthorized);
        }
        proof {
            lemma_map_of_remove(self.entries(), i as int);
        }
        self.posts.remove(i);
        proof {
            assert(self.entries() =~= old(self).entries().remove(i as int));
        }
        Ok(())
    }
}

/// The posts of a map that have the given category.
pub open spec fn in_category_of(m: Map<u64, PostView>, category: Category) -> Map<u64, PostView> {
    Map::new(|id: u64| m.contains_key(id) && m[id].category == category, |id: u64| m[id])
}

/// The text of an optional string.
pub open spec fn opt_chars(s: Option<String>) -> Option<Seq<char>> {
    match s {
        Some(t) => Some(t@),
        None => None,
    }
}

/// The values of a sequence of posts.
pub open spec fn views(v: Seq<Post>) -> Seq<PostView> {
    v.map_values(|p: Post| p@)
}

/// Ids strictly ascend along the sequence.
pub open spec fn ascending(s: Seq<PostView>) -> bool {
    forall|i: int, j: int| 0 <= i < j < s.len() ==> s[i].id < s[j].id
}

/// The posts of a sequence, keyed by their ids.
pub open spec fn map_of(s: Seq<PostView>) -> Map<u64, PostView> {
    Map::new(
        |id: u64| exists|i: int| 0 <= i < s.len() && s[i].id == id,
        |id: u64| s[choose|i: int| 0 <= i < s.len() && s[i].id == id],
    )
}

/// Each post of an ascending sequence is what its id maps to.
proof fn lemma_map_of_index(s: Seq<PostView>)
    requires
        ascending(s),
    ensures
        forall|i: int|
            0 <= i < s.len() ==> #[trigger] map_of(s).contains_key(s[i].id) && map_of(s)[s[i].id]
                == s[i],
        forall|id: u64|
            #[trigger] map_of(s).contains_key(id) ==> exists|i: int|
                0 <= i < s.len() && s[i].id == id,
{
    assert forall|i: int| 0 <= i < s.len() implies #[trigger] map_of(s).contains_key(s[i].id)
        && map_of(s)[s[i].id] == s[i] by {
        let id = s[i].id;
        assert(map_of(s).contains_key(id));
        let j = choose|j: int| 0 <= j < s.len() && s[j].id == id;
        if j < i {
            assert(s[j].id < s[i].id);
        } else if i < j {
            assert(s[i].id < s[j].id);
        }
    }
}

/// Appending a post with a larger id than all others adds it to the map.
proof fn lemma_map_of_push(s: Seq<PostView>, p: PostView)
    requires
        ascending(s),
        forall|i: int| 0 <= i < s.len() ==> s[i].id < p.id,
    ensures
        ascending(s.push(p)),
        map_of(s.push(p)) == map_of(s).insert(p.id, p),
{
    let t = s.push(p);
    assert(ascending(t)) by {
        assert forall|i: int, j: int| 0 <= i < j < t.len() implies t[i].id < t[j].id by {
            if j == s.len() {
                assert(t[i] == s[i]);
            } else {
                assert(t[i] == s[i] && t[j] == s[j]);
            }
        }
    }
    lemma_map_of_index(s);
    lemma_map_of_index(t);
    assert(t[s.len() as int] == p);
    assert forall|id: u64| #[trigger]
        map_of(t).contains_key(id) <==> map_of(s).insert(p.id, p).contains_key(id) by {
        if map_of(s).contains_key(id) {
            let i = choose|i: int| 0 <= i < s.len() && s[i].id == id;
            assert(t[i] == s[i]);
        }
        if map_of(t).contains_key(id) && id != p.id {
            let i = choose|i: int| 0 <= i < t.len() && t[i].id == id;
            assert(t[i] == s[i]);
        }
    }
    assert forall|id: u64| #[trigger] map_of(t).contains_key(id) implies map_of(t)[id] == map_of(
        s,
    ).insert(p.id, p)[id] by {
        let i = choose|i: int| 0 <= i < t.len() && t[i].id == id;
        if i < s.len() {
            assert(t[i] == s[i]);
        }
    }
    assert(map_of(t) =~= map_of(s).insert(p.id, p));
}

/// Replacing a post by one with the same id replaces it in the map.
proof fn lemma_map_of_update(s: Seq<PostView>, i: int, p: PostView)
    requires
        ascending(s),
        0 <= i < s.len(),
        p.id == s[i].id,
    ensures
        ascending(s.update(i, p)),
        map_of(s.update(i, p)) == map_of(s).insert(p.id, p),
{
    let t = s.update(i, p);
    assert(ascending(t)) by {
        assert forall|a: int, b: int| 0 <= a < b < t.len() implies t[a].id < t[b].id by {
            assert(t[a].id == s[a].id && t[b].id == s[b].id);
        }
    }
    lemma_map_of_index(s);
    lemma_map_of_index(t);
    assert forall|id: u64| #[trigger]
        map_of(t).contains_key(id) <==> map_of(s).insert(p.id, p).contains_key(id) by {
        if map_of(s).contains_key(id) {
            let j = choose|j: int| 0 <= j < s.len() && s[j].id == id;
            assert(t[j].id == s[j].id);
        }
        if map_of(t).contains_key(id) {
            let j = choose|j: int| 0 <= j < t.len() && t[j].id == id;
            assert(t[j].id == s[j].id);
        }
    }
    assert forall|id: u64| #[trigger] map_of(t).contains_key(id) implies map_of(t)[id] == map_of(
        s,
    ).insert(p.id, p)[id] by {
        let j = choose|j: int| 0 <= j < t.len() && t[j].id == id;
        if j != i {
            assert(t[j] == s[j]);
            assert(s[j].id != s[i].id) by {
                if j < i {
                    assert(s[j].id < s[i].id);
                } else {
                    assert(s[i].id < s[j].id);
                }
            }
        }
    }
    assert(map_of(t) =~= map_of(s).insert(p.id, p));
}

/// Removing a post from an ascending sequence removes its id from the map.
proof fn lemma_map_of_remove(s: Seq<PostView>, i: int)
    requires
        ascending(s),
        0 <= i < s.len(),
    ensures
        ascending(s.remove(i)),
        map_of(s.remove(i)) == map_of(s).remove(s[i].id),
{
    let t = s.remove(i);
    assert(forall|j: int| 0 <= j < t.len() ==> #[trigger] t[j] == if j < i {
        s[j]
    } else {
        s[j + 1]
    });
    assert(ascending(t)) by {
        assert forall|a: int, b: int| 0 <= a < b < t.len() implies t[a].id < t[b].id by {
            let a2 = if a < i { a } else { a + 1 };
            let b2 = if b < i { b } else { b + 1 };
            assert(t[a] == s[a2] && t[b] == s[b2]);
        }
    }
    lemma_map_of_index(s);
    lemma_map_of_index(t);
    let gone = s[i].id;
    assert forall|id: u64| #[trigger]
        map_of(t).contains_key(id) <==> map_of(s).remove(gone).contains_key(id) by {
        if map_of(s).contains_key(id) && id != gone {
            let j = choose|j: int| 0 <= j < s.len() && s[j].id == id;
            assert(j != i);
            if j < i {
                assert(t[j] == s[j]);
            } else {
                assert(t[j - 1] == s[j]);
            }
        }
        if map_of(t).contains_key(id) {
            let j = choose|j: int| 0 <= j < t.len() && t[j].id == id;
            let j2 = if j < i { j } else { j + 1 };
            assert(t[j] == s[j2]);
            assert(s[j2].id != gone) by {
                if j2 < i {
                    assert(s[j2].id < s[i].id);
                } else {
                    assert(s[i].id < s[j2].id);
                }
            }
        }
    }
    assert forall|id: u64| #[trigger] map_of(t).contains_key(id) implies map_of(t)[id] == map_of(
        s,
    ).remove(gone)[id] by {
        let j = choose|j: int| 0 <= j < t.len() && t[j].id == id;
        let j2 = if j < i { j } else { j + 1 };
        assert(t[j] == s[j2]);
    }
    assert(map_of(t) =~= map_of(s).remove(gone));
}

} // verus!
