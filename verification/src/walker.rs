//! The local directory walk: a depth-first, pre-order traversal of a
//! modelled tree, yielding each regular file with its root-relative path.
//!
//! The model holds what the filesystem's answers decide: how metadata
//! classifies each entry, whether a directory can be enumerated, and what
//! reading or uploading each file will come to. The policy is the point: an
//! entry whose metadata cannot be read is warned about and omitted, while a
//! directory that cannot be enumerated is fatal to the whole run.

use vstd::prelude::*;
use crate::engine::{candidate_views, run_index, run_outcomes, CandidateFile, CandidateView};
use crate::engine::{count_skipped, count_uploaded, count_warned, sync_entries, SyncReport};
use crate::errors::BackupError;
use crate::index::RemoteIndex;
use crate::path_codec::{
    join_rec, lemma_segments_of_join, segments_of, views_of, wf_segments, PathKey,
};

verus! {

/// A filesystem entry as the walk sees it, classified by metadata.
pub enum FsNode {
    /// A regular file, with the outcome its read and its upload will have.
    File { name: String, readable: bool, uploadable: bool },
    /// A directory; `listable` says whether enumerating its children
    /// succeeds.
    Dir { name: String, listable: bool, children: Vec<FsNode> },
    /// An entry whose metadata cannot be read. Its classification is
    /// unknown, so the walk warns and goes no further into it.
    Inaccessible { name: String },
}

/// The files below one node, in depth-first pre-order, each with the
/// relative path built from the segment prefix above it; nothing when an
/// enumeration below the node fails.
pub open spec fn walk_node_spec(prefix: Seq<Seq<char>>, node: FsNode) -> Option<
    Seq<CandidateView>,
>
    decreases node,
{
    match node {
        FsNode::File { name, readable, uploadable } => Some(
            seq![
                CandidateView {
                    rel_path: join_rec(prefix.push(name@)),
                    readable: readable,
                    uploadable: uploadable,
                },
            ],
        ),
        FsNode::Inaccessible { name } => Some(Seq::empty()),
        FsNode::Dir { name, listable, children } => {
            if !listable {
                None
            } else {
                walk_list_spec(prefix.push(name@), children@)
            }
        },
    }
}

/// The files below a row of sibling nodes, left to right.
pub open spec fn walk_list_spec(prefix: Seq<Seq<char>>, nodes: Seq<FsNode>) -> Option<
    Seq<CandidateView>,
>
    decreases nodes,
{
    if nodes.len() == 0 {
        Some(Seq::empty())
    } else {
        match walk_node_spec(prefix, nodes[0]) {
            Option::None => None,
            Option::Some(a) => match walk_list_spec(prefix, nodes.drop_first()) {
                Option::None => None,
                Option::Some(b) => Some(a + b),
            },
        }
    }
}

/// The files of a whole walk rooted at `root`. The root's own name is no
/// part of any relative path. A root whose metadata cannot be read yields
/// nothing, as any other inaccessible entry does; a root directory that
/// cannot be enumerated fails the walk.
pub open spec fn walk_root_spec(root: FsNode) -> Option<Seq<CandidateView>> {
    match root {
        FsNode::File { name, readable, uploadable } => Some(
            seq![CandidateView { rel_path: name@, readable: readable, uploadable: uploadable }],
        ),
        FsNode::Inaccessible { name } => Some(Seq::empty()),
        FsNode::Dir { name, listable, children } => {
            if !listable {
                None
            } else {
                walk_list_spec(Seq::empty(), children@)
            }
        },
    }
}

/// An owned copy of a segment prefix.
fn clone_segments(v: &Vec<String>) -> (r: Vec<String>)
    ensures
        views_of(r@) == views_of(v@),
{
    let n = v.len();
    let mut r: Vec<String> = Vec::new();
    let mut i: usize = 0;
    while i < n
        invariant
            n == v@.len(),
            i <= n,
            views_of(r@) =~= views_of(v@).take(i as int),
        decreases n - i,
    {
        r.push(v[i].clone());
        proof {
            assert(views_of(r@) =~= views_of(r@.drop_last()).push(v@[i as int]@));
            assert(views_of(v@).take(i + 1) =~= views_of(v@).take(i as int).push(
                views_of(v@)[i as int],
            ));
        }
        i += 1;
    }
    proof {
        assert(views_of(v@).take(n as int) =~= views_of(v@));
    }
    r
}

/// Walks one node. `prefix` holds the segments of the directories between
/// the root and this node.
fn walk_node(prefix: &Vec<String>, node: &FsNode) -> (r: Result<Vec<CandidateFile>, BackupError>)
    ensures
        r is Ok <==> walk_node_spec(views_of(prefix@), *node) is Some,
        r matches Ok(v) ==> Some(candidate_views(v@)) == walk_node_spec(views_of(prefix@), *node),
        r matches Err(e) ==> e == BackupError::DirectoryUnreadable,
    decreases *node,
{
    match node {
        FsNode::File { name, readable, uploadable } => {
            let mut segments = clone_segments(prefix);
            segments.push(name.clone());
            proof {
                assert(views_of(segments@) =~= views_of(prefix@).push(name@));
            }
            let rel_path = crate::path_codec::serialize(&PathKey { segments });
            let mut v: Vec<CandidateFile> = Vec::new();
            v.push(CandidateFile { rel_path, readable: *readable, uploadable: *uploadable });
            proof {
                assert(Some(candidate_views(v@)) =~= walk_node_spec(views_of(prefix@), *node));
            }
            Ok(v)
        },
        FsNode::Inaccessible { name } => {
            let v: Vec<CandidateFile> = Vec::new();
            proof {
                assert(candidate_views(v@) =~= Seq::<CandidateView>::empty());
            }
            Ok(v)
        },
        FsNode::Dir { name, listable, children } => {
            if !*listable {
                Err(BackupError::DirectoryUnreadable)
            } else {
                let mut child_prefix = clone_segments(prefix);
                child_prefix.push(name.clone());
                proof {
                    assert(views_of(child_prefix@) =~= views_of(prefix@).push(name@));
                }
                walk_list(&child_prefix, children)
            }
        },
    }
}

/// Walks a row of sibling nodes, left to right.
fn walk_list(prefix: &Vec<String>, nodes: &Vec<FsNode>) -> (r: Result<
    Vec<CandidateFile>,
    BackupError,
>)
    ensures
        r is Ok <==> walk_list_spec(views_of(prefix@), nodes@) is Some,
        r matches Ok(v) ==> Some(candidate_views(v@)) == walk_list_spec(views_of(prefix@), nodes@),
        r matches Err(e) ==> e == BackupError::DirectoryUnreadable,
    decreases nodes@,
{
    let ghost pv = views_of(prefix@);
    let n = nodes.len();
    let mut acc: Vec<CandidateFile> = Vec::new();
    let mut i: usize = 0;
    proof {
        assert(nodes@.skip(0) =~= nodes@);
    }
    while i < n
        invariant
            n == nodes@.len(),
            i <= n,
            pv == views_of(prefix@),
            walk_list_spec(pv, nodes@) == (match walk_list_spec(pv, nodes@.skip(i as int)) {
                Option::None => None::<Seq<CandidateView>>,
                Option::Some(b) => Some(candidate_views(acc@) + b),
            }),
        decreases n - i,
    {
        let ghost rest = nodes@.skip(i as int);
        proof {
            assert(rest.len() > 0);
            assert(rest[0] == nodes@[i as int]);
            assert(rest.drop_first() =~= nodes@.skip(i + 1));
            assert(decreases_to!(nodes@ => nodes@[i as int]));
        }
        match walk_node(prefix, &nodes[i]) {
            Result::Err(e) => {
                return Err(e);
            },
            Result::Ok(mut sub) => {
                let ghost acc_before = candidate_views(acc@);
                let ghost sub_views = candidate_views(sub@);
                acc.append(&mut sub);
                proof {
                    assert(candidate_views(acc@) =~= acc_before + sub_views);
                    if walk_list_spec(pv, nodes@.skip(i + 1)) is Some {
                        assert(acc_before + (sub_views + walk_list_spec(
                            pv,
                            nodes@.skip(i + 1),
                        )->0) =~= candidate_views(acc@) + walk_list_spec(
                            pv,
                            nodes@.skip(i + 1),
                        )->0);
                    }
                }
            },
        }
        i += 1;
    }
    proof {
        assert(nodes@.skip(n as int) =~= Seq::<FsNode>::empty());
        assert(candidate_views(acc@) + Seq::<CandidateView>::empty() =~= candidate_views(acc@));
    }
    Ok(acc)
}

/// Walks the tree rooted at `root` and yields every regular file found, in
/// depth-first pre-order, with its root-relative path. Fails exactly when a
/// reachable directory cannot be enumerated.
pub fn walk_tree(root: &FsNode) -> (r: Result<Vec<CandidateFile>, BackupError>)
    ensures
        r is Ok <==> walk_root_spec(*root) is Some,
        r matches Ok(v) ==> Some(candidate_views(v@)) == walk_root_spec(*root),
        r matches Err(e) ==> e == BackupError::DirectoryUnreadable,
{
    match root {
        FsNode::File { name, readable, uploadable } => {
            let mut v: Vec<CandidateFile> = Vec::new();
            v.push(
                CandidateFile {
                    rel_path: name.clone(),
                    readable: *readable,
                    uploadable: *uploadable,
                },
            );
            proof {
                assert(Some(candidate_views(v@)) =~= walk_root_spec(*root));
            }
            Ok(v)
        },
        FsNode::Inaccessible { name } => {
            let v: Vec<CandidateFile> = Vec::new();
            proof {
                assert(candidate_views(v@) =~= Seq::<CandidateView>::empty());
            }
            Ok(v)
        },
        FsNode::Dir { name, listable, children } => {
            if !*listable {
                Err(BackupError::DirectoryUnreadable)
            } else {
                let prefix: Vec<String> = Vec::new();
                proof {
                    assert(views_of(prefix@) =~= Seq::<Seq<char>>::empty());
                }
                walk_list(&prefix, children)
            }
        },
    }
}

/// With entry names that are non-empty and hold no separator character —
/// what a real filesystem yields — a walked file's dedup key is exactly the
/// names of the directories above it followed by its own name: normalizing
/// the relative path the walk built loses nothing.
pub proof fn lemma_walked_file_key(prefix: Seq<Seq<char>>, name: Seq<char>)
    requires
        wf_segments(prefix.push(name)),
    ensures
        segments_of(join_rec(prefix.push(name))) == prefix.push(name),
{
    lemma_segments_of_join(prefix.push(name));
}

/// A whole run over a modelled tree: walk, then decide file by file.
/// A directory that cannot be enumerated aborts the run before any upload
/// and leaves the index untouched; every other failure is contained.
pub fn sync_tree(index: &mut RemoteIndex, root: &FsNode) -> (r: Result<SyncReport, BackupError>)
    requires
        old(index).wf(),
    ensures
        final(index).wf(),
        r is Ok <==> walk_root_spec(*root) is Some,
        r matches Err(e) ==> e == BackupError::DirectoryUnreadable && final(index)@ == old(
            index,
        )@,
        r matches Ok(rep) ==> walk_root_spec(*root) matches Some(cs) && {
            &&& rep.outcomes@ == run_outcomes(old(index)@, cs)
            &&& final(index)@ == run_index(old(index)@, cs)
            &&& rep.uploaded == count_uploaded(rep.outcomes@)
            &&& rep.skipped == count_skipped(rep.outcomes@)
            &&& rep.warned == count_warned(rep.outcomes@)
        },
{
    match walk_tree(root) {
        Result::Err(e) => Err(e),
        Result::Ok(files) => Ok(sync_entries(index, &files)),
    }
}

} // verus!
