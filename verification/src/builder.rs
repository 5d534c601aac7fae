//! Building the remote index from the store's paginated listing.
//!
//! One page at a time: every key on the page is normalized and inserted,
//! and the page's "more data available" signal decides whether another page
//! is requested. A failed page request is fatal — a partial index would
//! turn into false "missing" decisions and duplicate uploads, so it is
//! never used as if complete.

use vstd::prelude::*;
use crate::errors::BackupError;
use crate::index::RemoteIndex;
use crate::path_codec::{normalize, segments_of, views_of};

verus! {

/// One page of the remote store's listing.
pub struct Page {
    /// The object keys on this page.
    pub keys: Vec<String>,
    /// The opaque token a follow-up request resumes from. The index
    /// builder only carries it; the store gives it meaning.
    pub next_cursor: Option<String>,
    /// Whether the store reports more data after this page.
    pub has_more: bool,
}

/// The mathematical shape of one listing page.
pub ghost struct PageView {
    pub keys: Seq<Seq<char>>,
    pub next_cursor: Option<Seq<char>>,
    pub has_more: bool,
}

impl View for Page {
    type V = PageView;

    open spec fn view(&self) -> PageView {
        PageView {
            keys: views_of(self.keys@),
            next_cursor: match self.next_cursor {
                Option::Some(c) => Some(c@),
                Option::None => None,
            },
            has_more: self.has_more,
        }
    }
}

/// What one listing request came to: a page, or a transport, auth or
/// service failure.
pub enum ListResult {
    Page(Page),
    Failed,
}

/// The view of a listing result: nothing for a failed request.
pub open spec fn list_view(r: ListResult) -> Option<PageView> {
    match r {
        ListResult::Page(p) => Some(p@),
        ListResult::Failed => None,
    }
}

/// A response on which the enumeration stops asking for pages: a failure,
/// or a page after which the store reports no more data.
pub open spec fn is_terminal(r: Option<PageView>) -> bool {
    match r {
        Option::None => true,
        Option::Some(p) => !p.has_more,
    }
}

/// The position of the first terminal response.
pub open spec fn stop_index(rs: Seq<Option<PageView>>) -> int
    decreases rs.len(),
{
    if rs.len() == 0 {
        0
    } else if is_terminal(rs[0]) {
        0
    } else {
        1 + stop_index(rs.drop_first())
    }
}

/// The set of normalized keys of a key sequence.
pub open spec fn keys_set(ks: Seq<Seq<char>>) -> Set<Seq<Seq<char>>>
    decreases ks.len(),
{
    if ks.len() == 0 {
        Set::empty()
    } else {
        keys_set(ks.drop_last()).insert(segments_of(ks.last()))
    }
}

/// The union of the normalized keys of the first `n` responses' pages.
pub open spec fn pages_union(rs: Seq<Option<PageView>>, n: int) -> Set<Seq<Seq<char>>>
    decreases n,
{
    if n <= 0 {
        Set::empty()
    } else {
        pages_union(rs, n - 1).union(
            match rs[n - 1] {
                Option::Some(p) => keys_set(p.keys),
                Option::None => Set::empty(),
            },
        )
    }
}

proof fn lemma_stop_index_at(rs: Seq<Option<PageView>>, i: int)
    requires
        0 <= i < rs.len(),
        forall|k: int| 0 <= k < i ==> !is_terminal(#[trigger] rs[k]),
        is_terminal(rs[i]),
    ensures
        stop_index(rs) == i,
    decreases i,
{
    if i > 0 {
        assert(!is_terminal(rs[0]));
        assert(forall|k: int|
            0 <= k < i - 1 ==> !is_terminal(#[trigger] rs.drop_first()[k]));
        assert(rs.drop_first()[i - 1] == rs[i]);
        lemma_stop_index_at(rs.drop_first(), i - 1);
    }
}

/// Normalizes and inserts every key of one page into the index.
pub fn apply_page(index: &mut RemoteIndex, page: &Page)
    requires
        old(index).wf(),
    ensures
        final(index).wf(),
        final(index)@ == old(index)@.union(keys_set(page@.keys)),
{
    let n = page.keys.len();
    let mut i: usize = 0;
    proof {
        assert(page@.keys.take(0) =~= Seq::<Seq<char>>::empty());
        assert(old(index)@.union(keys_set(page@.keys.take(0))) =~= old(index)@);
    }
    while i < n
        invariant
            n == page.keys@.len(),
            i <= n,
            index.wf(),
            index@ == old(index)@.union(keys_set(page@.keys.take(i as int))),
        decreases n - i,
    {
        let key = normalize(page.keys[i].as_str());
        index.insert(key);
        proof {
            assert(page@.keys.take(i + 1).drop_last() =~= page@.keys.take(i as int));
            assert(page@.keys.take(i + 1).last() == page@.keys[i as int]);
            assert(old(index)@.union(keys_set(page@.keys.take(i + 1))) =~= old(index)@.union(
                keys_set(page@.keys.take(i as int)),
            ).insert(segments_of(page@.keys[i as int])));
        }
        i += 1;
    }
    proof {
        assert(page@.keys.take(n as int) =~= page@.keys);
    }
}

/// Exhausts a store's listing, one response at a time, into a fresh index.
///
/// `responses` stands for the store: the answer each successive page
/// request would get. The store's contract is that the enumeration ends —
/// some response is terminal. Exactly the responses up to and including the
/// first terminal one are consumed; their count is returned beside the
/// index. A failed request aborts the build instead: no partial index is
/// handed out.
pub fn build_from_pages(responses: &Vec<ListResult>) -> (r: Result<
    (RemoteIndex, usize),
    BackupError,
>)
    requires
        exists|i: int|
            0 <= i < responses@.len() && is_terminal(
                list_view(#[trigger] responses@[i]),
            ),
    ensures
        ({
            let views = responses@.map_values(|x: ListResult| list_view(x));
            let stop = stop_index(views);
            &&& (r is Ok <==> views[stop] is Some)
            &&& r matches Err(e) ==> e == BackupError::FileFetchFailed
            &&& r matches Ok(p) ==> {
                &&& p.1 == stop + 1
                &&& p.0.wf()
                &&& p.0@ == pages_union(views, stop + 1)
            }
        }),
{
    let ghost views = responses@.map_values(|x: ListResult| list_view(x));
    let n = responses.len();
    let mut index = RemoteIndex::new();
    let mut i: usize = 0;
    proof {
        assert(index@ =~= pages_union(views, 0));
        let k0 = choose|k: int|
            0 <= k < responses@.len() && is_terminal(list_view(#[trigger] responses@[k]));
        assert(views[k0] == list_view(responses@[k0]));
    }
    while i < n
        invariant
            n == responses@.len(),
            i <= n,
            views == responses@.map_values(|x: ListResult| list_view(x)),
            exists|k: int| 0 <= k < n && is_terminal(#[trigger] views[k]),
            forall|k: int| 0 <= k < i ==> !is_terminal(#[trigger] views[k]),
            index.wf(),
            index@ == pages_union(views, i as int),
        decreases n - i,
    {
        match &responses[i] {
            ListResult::Failed => {
                proof {
                    lemma_stop_index_at(views, i as int);
                }
                return Err(BackupError::FileFetchFailed);
            },
            ListResult::Page(page) => {
                apply_page(&mut index, page);
                proof {
                    assert(pages_union(views, i + 1) =~= pages_union(views, i as int).union(
                        keys_set(page@.keys),
                    ));
                }
                if !page.has_more {
                    proof {
                        lemma_stop_index_at(views, i as int);
                    }
                    return Ok((index, i + 1));
                }
            },
        }
        i += 1;
    }
    proof {
        let k = choose|k: int| 0 <= k < n && is_terminal(#[trigger] views[k]);
        assert(!is_terminal(views[k]));
        assert(false);
    }
    Err(BackupError::FileFetchFailed)
}

} // verus!
