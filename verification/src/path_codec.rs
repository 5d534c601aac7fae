//! Normalization of path strings into ordered segment sequences, and the
//! canonical reassembly of such a sequence into a remote object key.
//!
//! A path may come from an object key or from the local filesystem, so both
//! `/` and `\` count as separators; empty segments from repeated, leading or
//! trailing separators are dropped. Two paths therefore compare equal exactly
//! when their segment sequences do, independent of the separator style that
//! produced them.

use vstd::prelude::*;

verus! {

/// A character that ends a path segment, whichever OS wrote the path.
pub open spec fn is_separator(c: char) -> bool {
    c == '/' || c == '\\'
}

/// The segments of `s`, read left to right, with `cur` the partially
/// assembled segment in front of `s`. A segment is emitted when a separator
/// or the end of the string is reached, and only if it is non-empty.
pub open spec fn split_rec(s: Seq<char>, cur: Seq<char>) -> Seq<Seq<char>>
    decreases s.len(),
{
    if s.len() == 0 {
        if cur.len() == 0 {
            Seq::empty()
        } else {
            seq![cur]
        }
    } else if is_separator(s[0]) {
        if cur.len() == 0 {
            split_rec(s.drop_first(), Seq::empty())
        } else {
            seq![cur] + split_rec(s.drop_first(), Seq::empty())
        }
    } else {
        split_rec(s.drop_first(), cur.push(s[0]))
    }
}

/// The separator-agnostic segment sequence of a raw path string.
pub open spec fn segments_of(s: Seq<char>) -> Seq<Seq<char>> {
    split_rec(s, Seq::empty())
}

/// The views of a vector of owned segments.
pub open spec fn views_of(v: Seq<String>) -> Seq<Seq<char>> {
    v.map_values(|t: String| t@)
}

/// Consuming a separator-free prefix only extends the current segment.
proof fn lemma_split_consume(s: Seq<char>, cur: Seq<char>, j: int)
    requires
        0 <= j <= s.len(),
        forall|k: int| 0 <= k < j ==> !is_separator(s[k]),
    ensures
        split_rec(s, cur) == split_rec(s.skip(j), cur + s.subrange(0, j)),
    decreases j,
{
    if j == 0 {
        assert(cur + s.subrange(0, 0) =~= cur);
        assert(s.skip(0) =~= s);
    } else {
        lemma_split_consume(s.drop_first(), cur.push(s[0]), j - 1);
        assert(s.drop_first().skip(j - 1) =~= s.skip(j));
        assert(cur.push(s[0]) + s.drop_first().subrange(0, j - 1) =~= cur + s.subrange(0, j));
    }
}

/// An ordered sequence of non-empty path segments: the unit of comparison
/// between remote keys and local relative paths.
pub struct PathKey {
    pub segments: Vec<String>,
}

impl View for PathKey {
    type V = Seq<Seq<char>>;

    open spec fn view(&self) -> Seq<Seq<char>> {
        views_of(self.segments@)
    }
}

/// Splits a raw path on `/` and `\`, dropping empty segments.
pub fn split_filename(filename: &str) -> (segs: Vec<String>)
    ensures
        views_of(segs@) == segments_of(filename@),
{
    let n = filename.unicode_len();
    let mut segs: Vec<String> = Vec::new();
    let mut start: usize = 0;
    let mut i: usize = 0;
    proof {
        assert(filename@.skip(0) =~= filename@);
        assert(views_of(segs@) + split_rec(filename@, Seq::empty()) =~= split_rec(
            filename@,
            Seq::empty(),
        ));
    }
    while i < n
        invariant
            n == filename@.len(),
            start <= i <= n,
            forall|k: int| start <= k < i ==> !is_separator(filename@[k]),
            segments_of(filename@) == views_of(segs@) + split_rec(
                filename@.skip(start as int),
                Seq::empty(),
            ),
        decreases n - i,
    {
        let c = filename.get_char(i);
        if c == '/' || c == '\\' {
            proof {
                lemma_split_consume(
                    filename@.skip(start as int),
                    Seq::empty(),
                    i - start,
                );
                assert(filename@.skip(start as int).skip(i - start) =~= filename@.skip(i as int));
                assert(Seq::<char>::empty() + filename@.skip(start as int).subrange(0, i - start)
                    =~= filename@.subrange(start as int, i as int));
                assert(filename@.skip(i as int).drop_first() =~= filename@.skip(i + 1));
            }
            if start < i {
                let seg = filename.substring_char(start, i);
                segs.push(seg.to_owned());
                proof {
                    assert(views_of(segs@) =~= views_of(segs@.drop_last()) + seq![
                        filename@.subrange(start as int, i as int),
                    ]);
                }
            }
            start = i + 1;
        }
        i += 1;
    }
    proof {
        lemma_split_consume(filename@.skip(start as int), Seq::empty(), n - start);
        assert(filename@.skip(start as int).skip(n - start) =~= filename@.skip(n as int));
        assert(Seq::<char>::empty() + filename@.skip(start as int).subrange(0, n - start)
            =~= filename@.subrange(start as int, n as int));
    }
    if start < n {
        let seg = filename.substring_char(start, n);
        segs.push(seg.to_owned());
        proof {
            assert(views_of(segs@) =~= views_of(segs@.drop_last()) + seq![
                filename@.subrange(start as int, n as int),
            ]);
        }
    }
    proof {
        assert(views_of(segs@) + Seq::<Seq<char>>::empty() =~= views_of(segs@));
    }
    segs
}

/// Normalizes a raw path string into its separator-agnostic key.
pub fn normalize(raw: &str) -> (key: PathKey)
    ensures
        key@ == segments_of(raw@),
{
    PathKey { segments: split_filename(raw) }
}

/// Segments reassembled with `/`, the canonical remote separator.
pub open spec fn join_rec(segs: Seq<Seq<char>>) -> Seq<char>
    decreases segs.len(),
{
    if segs.len() == 0 {
        Seq::empty()
    } else if segs.len() == 1 {
        segs[0]
    } else {
        segs[0] + seq!['/'] + join_rec(segs.drop_first())
    }
}

/// The join of two or more segments ends with a separator and the last one.
proof fn lemma_join_snoc(segs: Seq<Seq<char>>)
    requires
        segs.len() >= 2,
    ensures
        join_rec(segs) == join_rec(segs.drop_last()) + seq!['/'] + segs.last(),
    decreases segs.len(),
{
    if segs.len() == 2 {
        assert(join_rec(segs.drop_first()) == segs.drop_first()[0]);
        assert(segs.drop_first()[0] == segs[1]);
        assert(join_rec(segs.drop_last()) == segs.drop_last()[0]);
        assert(segs.drop_last()[0] == segs[0]);
        assert(join_rec(segs) =~= join_rec(segs.drop_last()) + seq!['/'] + segs.last());
    } else {
        lemma_join_snoc(segs.drop_first());
        assert(segs.drop_first().drop_last() =~= segs.drop_last().drop_first());
        assert(segs.drop_first().last() == segs.last());
        assert(segs.drop_last().len() >= 2);
        assert(join_rec(segs.drop_last()) == segs.drop_last()[0] + seq!['/'] + join_rec(
            segs.drop_last().drop_first(),
        ));
        assert(segs.drop_last()[0] == segs[0]);
        assert(join_rec(segs) =~= join_rec(segs.drop_last()) + seq!['/'] + segs.last());
    }
}

impl PathKey {
    /// Two keys are the same exactly when their segment sequences are.
    pub fn key_eq(&self, other: &PathKey) -> (r: bool)
        ensures
            r == (self@ == other@),
    {
        if self.segments.len() != other.segments.len() {
            proof {
                assert(self@.len() != other@.len());
            }
            return false;
        }
        let n = self.segments.len();
        let mut i: usize = 0;
        while i < n
            invariant
                n == self.segments@.len() == other.segments@.len(),
                i <= n,
                forall|k: int| 0 <= k < i ==> self@[k] == other@[k],
            decreases n - i,
        {
            if !str_eq(self.segments[i].as_str(), other.segments[i].as_str()) {
                proof {
                    assert(self@[i as int] != other@[i as int]);
                }
                return false;
            }
            i += 1;
        }
        proof {
            assert(self@ =~= other@);
        }
        true
    }
}

/// String slice equality, stated over the character views.
pub fn str_eq(a: &str, b: &str) -> (r: bool)
    ensures
        r == (a@ == b@),
{
    let sa = a.to_owned();
    let sb = b.to_owned();
    sa == sb
}

/// Reassembles a key with `/`, the canonical form required by the store.
pub fn serialize(key: &PathKey) -> (r: String)
    ensures
        r@ == join_rec(key@),
{
    let mut r = String::new();
    let n = key.segments.len();
    let mut i: usize = 0;
    proof {
        reveal_strlit("/");
        assert(key@.take(0) =~= Seq::<Seq<char>>::empty());
    }
    while i < n
        invariant
            n == key.segments@.len(),
            i <= n,
            r@ == join_rec(key@.take(i as int)),
        decreases n - i,
    {
        proof {
            reveal_strlit("/");
            assert(key@.take(i + 1).drop_last() =~= key@.take(i as int));
            assert(key@.take(i + 1).last() == key@[i as int]);
            if i >= 1 {
                lemma_join_snoc(key@.take(i + 1));
            }
        }
        if i > 0 {
            r.append("/");
        }
        r.append(key.segments[i].as_str());
        i += 1;
    }
    proof {
        assert(key@.take(n as int) =~= key@);
    }
    r
}

/// Two path strings that agree except for the separator style used.
pub open spec fn separator_equivalent(a: Seq<char>, b: Seq<char>) -> bool {
    &&& a.len() == b.len()
    &&& forall|i: int|
        0 <= i < a.len() ==> (a[i] == b[i] || (is_separator(a[i]) && is_separator(b[i])))
}

proof fn lemma_split_sep_equiv(a: Seq<char>, b: Seq<char>, cur: Seq<char>)
    requires
        separator_equivalent(a, b),
    ensures
        split_rec(a, cur) == split_rec(b, cur),
    decreases a.len(),
{
    if a.len() > 0 {
        assert forall|i: int| 0 <= i < a.drop_first().len() implies (a.drop_first()[i]
            == b.drop_first()[i] || (is_separator(a.drop_first()[i]) && is_separator(
            b.drop_first()[i],
        ))) by {
            assert(a.drop_first()[i] == a[i + 1]);
            assert(b.drop_first()[i] == b[i + 1]);
        }
        if is_separator(a[0]) {
            lemma_split_sep_equiv(a.drop_first(), b.drop_first(), Seq::empty());
        } else {
            lemma_split_sep_equiv(a.drop_first(), b.drop_first(), cur.push(a[0]));
        }
    }
}

/// Normalization is separator-agnostic: path strings that differ only in
/// which separator character they use yield identical segment sequences.
pub proof fn lemma_separator_agnostic(a: Seq<char>, b: Seq<char>)
    requires
        separator_equivalent(a, b),
    ensures
        segments_of(a) == segments_of(b),
{
    lemma_split_sep_equiv(a, b, Seq::empty());
}

/// A well-formed segment sequence: every segment is non-empty and holds no
/// separator character. Every normalized key has this shape.
pub open spec fn wf_segments(segs: Seq<Seq<char>>) -> bool {
    forall|i: int|
        0 <= i < segs.len() ==> ((#[trigger] segs[i]).len() > 0 && forall|j: int|
            0 <= j < segs[i].len() ==> !is_separator(segs[i][j]))
}

proof fn lemma_split_wf(s: Seq<char>, cur: Seq<char>)
    requires
        forall|j: int| 0 <= j < cur.len() ==> !is_separator(cur[j]),
    ensures
        wf_segments(split_rec(s, cur)),
    decreases s.len(),
{
    if s.len() == 0 {
    } else if is_separator(s[0]) {
        lemma_split_wf(s.drop_first(), Seq::empty());
    } else {
        assert(forall|j: int|
            0 <= j < cur.push(s[0]).len() ==> !is_separator(cur.push(s[0])[j]));
        lemma_split_wf(s.drop_first(), cur.push(s[0]));
    }
}

/// Every normalized key is well-formed.
pub proof fn lemma_segments_of_wf(s: Seq<char>)
    ensures
        wf_segments(segments_of(s)),
{
    lemma_split_wf(s, Seq::empty());
}

/// Normalizing the canonical serialization of a well-formed segment sequence
/// gives the sequence back.
pub proof fn lemma_segments_of_join(segs: Seq<Seq<char>>)
    requires
        wf_segments(segs),
    ensures
        segments_of(join_rec(segs)) == segs,
    decreases segs.len(),
{
    if segs.len() == 0 {
        assert(segments_of(join_rec(segs)) =~= segs);
    } else if segs.len() == 1 {
        let s = segs[0];
        lemma_split_consume(s, Seq::empty(), s.len() as int);
        assert(Seq::<char>::empty() + s.subrange(0, s.len() as int) =~= s);
        assert(s.skip(s.len() as int).len() == 0);
        assert(segments_of(s) =~= segs);
    } else {
        let s0 = segs[0];
        let rest = segs.drop_first();
        let joined = join_rec(segs);
        assert(joined == s0 + seq!['/'] + join_rec(rest));
        let m = s0.len() as int;
        assert(forall|k: int| 0 <= k < m ==> !is_separator(joined[k]));
        lemma_split_consume(joined, Seq::empty(), m);
        assert(Seq::<char>::empty() + joined.subrange(0, m) =~= s0);
        assert(is_separator(joined.skip(m)[0]));
        assert(split_rec(joined.skip(m), s0) == seq![s0] + split_rec(
            joined.skip(m).drop_first(),
            Seq::empty(),
        ));
        assert(joined.skip(m).drop_first() =~= join_rec(rest));
        assert forall|i: int| 0 <= i < rest.len() implies ((#[trigger] rest[i]).len() > 0
            && forall|j: int| 0 <= j < rest[i].len() ==> !is_separator(rest[i][j])) by {
            assert(rest[i] == segs[i + 1]);
        }
        lemma_segments_of_join(rest);
        assert(segments_of(joined) =~= segs);
    }
}

/// The root-relative form of `path` under `root`: where the normalized root
/// is a prefix of the normalized path, the remaining segments rejoined with
/// the canonical separator; where it is not, nothing.
pub fn strip_path(path: &str, root: &str) -> (r: Option<String>)
    ensures
        r is Some <==> segments_of(root@).is_prefix_of(segments_of(path@)),
        r matches Some(rel) ==> rel@ == join_rec(
            segments_of(path@).skip(segments_of(root@).len() as int),
        ),
{
    let kp = split_filename(path);
    let kr = split_filename(root);
    let np = kp.len();
    let nr = kr.len();
    if nr > np {
        proof {
            assert(!segments_of(root@).is_prefix_of(segments_of(path@)));
        }
        return None;
    }
    let mut i: usize = 0;
    while i < nr
        invariant
            np == kp.len() >= nr == kr.len(),
            i <= nr,
            views_of(kp@) == segments_of(path@),
            views_of(kr@) == segments_of(root@),
            forall|k: int| 0 <= k < i ==> views_of(kr@)[k] == views_of(kp@)[k],
        decreases nr - i,
    {
        if !str_eq(kr[i].as_str(), kp[i].as_str()) {
            proof {
                assert(views_of(kr@)[i as int] != views_of(kp@)[i as int]);
                assert(!segments_of(root@).is_prefix_of(segments_of(path@)));
            }
            return None;
        }
        i += 1;
    }
    proof {
        assert(segments_of(root@) =~= segments_of(path@).subrange(0, nr as int));
    }
    let mut rest: Vec<String> = Vec::new();
    let mut j: usize = nr;
    while j < np
        invariant
            np == kp.len(),
            nr <= j <= np,
            views_of(kp@) == segments_of(path@),
            views_of(rest@) =~= views_of(kp@).subrange(nr as int, j as int),
        decreases np - j,
    {
        let seg = kp[j].clone();
        rest.push(seg);
        proof {
            assert(views_of(rest@) =~= views_of(rest@.drop_last()).push(kp@[j as int]@));
            assert(views_of(kp@).subrange(nr as int, j + 1) =~= views_of(kp@).subrange(
                nr as int,
                j as int,
            ).push(views_of(kp@)[j as int]));
        }
        j += 1;
    }
    let rel = serialize(&PathKey { segments: rest });
    proof {
        assert(views_of(rest@) =~= segments_of(path@).skip(nr as int));
    }
    Some(rel)
}

} // verus!
