use vstd::prelude::*;

use crate::post::{Category, PostView};
use crate::store::{StoreError, StoreView};

verus! {

/// One operation on the store, with the caller identity and the values the
/// hosting layer handed over.
pub enum Action {
    Create {
        author: Seq<u8>,
        title: Seq<char>,
        content: Seq<char>,
        category: Category,
        timestamp: u64,
    },
    Update {
        caller: Seq<u8>,
        id: u64,
        title: Option<Seq<char>>,
        content: Option<Seq<char>>,
        category: Option<Category>,
    },
    Delete { caller: Seq<u8>, id: u64 },
}

/// The store after one operation.
pub open spec fn apply(s: StoreView, a: Action) -> StoreView {
    match a {
        Action::Create { author, title, content, category, timestamp } => s.after_create(
            author,
            title,
            content,
            category,
            timestamp,
        ),
        Action::Update { caller, id, title, content, category } => s.after_update(
            caller,
            id,
            title,
            content,
            category,
        ),
        Action::Delete { caller, id } => s.after_delete(caller, id),
    }
}

/// The store after a sequence of operations, first to last.
pub open spec fn run(s: StoreView, acts: Seq<Action>) -> StoreView
    decreases acts.len(),
{
    if acts.len() == 0 {
        s
    } else {
        apply(run(s, acts.drop_last()), acts.last())
    }
}

/// Every create in the sequence finds the counter below its largest value,
/// as `create_post` requires.
pub open spec fn counter_never_full(s: StoreView, acts: Seq<Action>) -> bool {
    forall|k: int|
        0 <= k < acts.len() && (#[trigger] acts[k]) is Create ==> run(s, acts.take(k)).next_id
            < u64::MAX
}

proof fn lemma_run_take(s: StoreView, acts: Seq<Action>, k: int)
    requires
        0 <= k < acts.len(),
    ensures
        run(s, acts.take(k + 1)) == apply(run(s, acts.take(k)), acts[k]),
{
    assert(acts.take(k + 1).drop_last() =~= acts.take(k));
}

proof fn lemma_apply_keeps(s: StoreView, a: Action)
    requires
        s.wf(),
        a is Create ==> s.next_id < u64::MAX,
    ensures
        apply(s, a).wf(),
        s.next_id <= apply(s, a).next_id,
        a is Create ==> apply(s, a).next_id == s.next_id + 1,
{
}

proof fn lemma_run_grows(s: StoreView, acts: Seq<Action>, i: int, k: int)
    requires
        s.wf(),
        counter_never_full(s, acts),
        0 <= i < k <= acts.len(),
        acts[i] is Create,
    ensures
        run(s, acts.take(k)).wf(),
        run(s, acts.take(i)).next_id < run(s, acts.take(k)).next_id,
    decreases k,
{
    lemma_run_wf(s, acts, k - 1);
    lemma_run_take(s, acts, k - 1);
    lemma_apply_keeps(run(s, acts.take(k - 1)), acts[k - 1]);
    if i < k - 1 {
        lemma_run_grows(s, acts, i, k - 1);
    }
}

proof fn lemma_run_wf(s: StoreView, acts: Seq<Action>, k: int)
    requires
        s.wf(),
        counter_never_full(s, acts),
        0 <= k <= acts.len(),
    ensures
        run(s, acts.take(k)).wf(),
    decreases k,
{
    if k == 0 {
        assert(acts.take(0) =~= Seq::<Action>::empty());
    } else {
        lemma_run_wf(s, acts, k - 1);
        lemma_run_take(s, acts, k - 1);
        lemma_apply_keeps(run(s, acts.take(k - 1)), acts[k - 1]);
    }
}

/// Ids issued by `create_post` strictly increase over any sequence of
/// operations, deletes included, and each one is free when it is issued: the
/// `i`-th operation and a later `j`-th one both create, and the second gets
/// a larger id, held by no stored post.
pub proof fn lemma_ids_increase(s: StoreView, acts: Seq<Action>, i: int, j: int)
    requires
        s.wf(),
        counter_never_full(s, acts),
        0 <= i < j < acts.len(),
        acts[i] is Create,
        acts[j] is Create,
    ensures
        run(s, acts.take(i)).next_id < run(s, acts.take(j)).next_id,
        !run(s, acts.take(j)).posts.contains_key(run(s, acts.take(j)).next_id),
{
    lemma_run_grows(s, acts, i, j);
}

/// A created post reads back with every field as supplied, the creating
/// caller as author and the creation time as timestamp.
pub proof fn lemma_get_after_create(
    s: StoreView,
    author: Seq<u8>,
    title: Seq<char>,
    content: Seq<char>,
    category: Category,
    timestamp: u64,
)
    requires
        s.wf(),
        s.next_id < u64::MAX,
    ensures
        s.after_create(author, title, content, category, timestamp).lookup(s.next_id) == Some(
            PostView { id: s.next_id, author, title, content, category, timestamp },
        ),
{
}

/// An update by anyone but the author is refused as unauthorized and leaves
/// the store as it was.
pub proof fn lemma_update_by_other(
    s: StoreView,
    caller: Seq<u8>,
    id: u64,
    title: Option<Seq<char>>,
    content: Option<Seq<char>>,
    category: Option<Category>,
)
    requires
        s.posts.contains_key(id),
        s.posts[id].author != caller,
    ensures
        s.write_check(caller, id) == Err::<(), StoreError>(StoreError::Unauthorized),
        s.after_update(caller, id, title, content, category) == s,
{
}

/// An update by the author that gives only a title changes the title and no
/// other field.
pub proof fn lemma_update_title_only(s: StoreView, id: u64, title: Seq<char>)
    requires
        s.posts.contains_key(id),
    ensures
        s.write_check(s.posts[id].author, id) == Ok::<(), StoreError>(()),
        s.after_update(s.posts[id].author, id, Some(title), None, None).lookup(id) == Some(
            PostView { title, ..s.posts[id] },
        ),
{
}

/// A delete by anyone but the author is refused as unauthorized, and the
/// post can still be read.
pub proof fn lemma_delete_by_other(s: StoreView, caller: Seq<u8>, id: u64)
    requires
        s.posts.contains_key(id),
        s.posts[id].author != caller,
    ensures
        s.write_check(caller, id) == Err::<(), StoreError>(StoreError::Unauthorized),
        s.after_delete(caller, id).lookup(id) == Some(s.posts[id]),
{
}

/// A delete by the author removes the post: it can no longer be read, and a
/// later update or delete of its id, by anyone, is refused as not found.
pub proof fn lemma_delete_by_author(
    s: StoreView,
    id: u64,
    caller: Seq<u8>,
    title: Option<Seq<char>>,
    content: Option<Seq<char>>,
    category: Option<Category>,
)
    requires
        s.posts.contains_key(id),
    ensures
        ({
            let t = s.after_delete(s.posts[id].author, id);
            &&& s.write_check(s.posts[id].author, id) == Ok::<(), StoreError>(())
            &&& t.lookup(id) is None
            &&& t.write_check(caller, id) == Err::<(), StoreError>(StoreError::NotFound)
            &&& t.after_update(caller, id, title, content, category) == t
            &&& t.after_delete(caller, id) == t
        }),
{
}

} // verus!
