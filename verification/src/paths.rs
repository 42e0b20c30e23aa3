use vstd::prelude::*;

verus! {

/// One path segment is acceptable when it is a plain directory or file
/// name: non-empty, free of separators, and not one of the relative
/// navigation names `.` and `..`.
pub open spec fn seg_ok(s: Seq<char>) -> bool {
    &&& s.len() > 0
    &&& forall|i: int| 0 <= i < s.len() ==> s[i] != '/'
    &&& s != seq!['.']
    &&& s != seq!['.', '.']
}

/// A resolved filesystem path: the sequence of name segments below some
/// fixed filesystem origin (the application supplies the origin when it
/// turns a `SafePath` back into a real path). Because every segment of a
/// well-formed `SafePath` is a plain name, appending segments always moves
/// strictly downwards in the tree.
#[derive(Debug, PartialEq, Eq)]
pub struct SafePath {
    pub segments: Vec<String>,
}

impl View for SafePath {
    type V = Seq<Seq<char>>;

    open spec fn view(&self) -> Seq<Seq<char>> {
        self.segments.deep_view()
    }
}

impl SafePath {
    /// Every segment is a plain name.
    pub open spec fn wf(&self) -> bool {
        forall|i: int| 0 <= i < self@.len() ==> seg_ok(#[trigger] self@[i])
    }
}

/// `p` names the same node as `root`, or one below it: `root`'s segments
/// are a prefix of `p`'s.
pub open spec fn is_within(root: Seq<Seq<char>>, p: Seq<Seq<char>>) -> bool {
    &&& root.len() <= p.len()
    &&& p.subrange(0, root.len() as int) == root
}

/// `p` lies at or below `root`, and everything it adds below `root` is a
/// plain name segment, so the path cannot climb back out of `root`.
pub open spec fn extends_safely(root: Seq<Seq<char>>, p: Seq<Seq<char>>) -> bool {
    &&& is_within(root, p)
    &&& forall|i: int| root.len() <= i < p.len() ==> seg_ok(#[trigger] p[i])
}

/// `is_within` holds of any extension of `root` by further segments.
pub proof fn lemma_extension_is_within(root: Seq<Seq<char>>, rest: Seq<Seq<char>>)
    ensures
        is_within(root, root + rest),
{
    assert((root + rest).subrange(0, root.len() as int) =~= root);
}

impl SafePath {
    /// Checks the well-formedness of every segment, accepting exactly the
    /// segment lists whose segments are all plain names.
    pub fn from_segments(segments: Vec<String>) -> (r: Option<SafePath>)
        ensures
            r matches Some(p) ==> p@ == segments.deep_view() && p.wf(),
            r is Some <==> forall|i: int|
                0 <= i < segments.deep_view().len() ==> seg_ok(#[trigger] segments.deep_view()[i]),
    {
        let mut i: usize = 0;
        while i < segments.len()
            invariant
                i <= segments.len(),
                forall|k: int| 0 <= k < i ==> seg_ok(#[trigger] segments.deep_view()[k]),
            decreases segments.len() - i,
        {
            if !segment_is_plain(&segments[i]) {
                proof {
                    assert(segments.deep_view()[i as int] == segments@[i as int]@);
                }
                return None;
            }
            i += 1;
        }
        Some(SafePath { segments })
    }

    /// The same path with one more segment below it.
    pub fn child(&self, seg: String) -> (r: SafePath)
        ensures
            r@ == self@.push(seg@),
    {
        let mut segments = self.segments.clone();
        proof {
            assert forall|i: int| 0 <= i < segments@.len() implies segments@[i]@
                == self.segments@[i]@ by {
                assert(cloned::<String>(self.segments[i], segments[i]));
            }
            assert(segments.deep_view() =~= self@);
        }
        segments.push(seg);
        proof {
            assert(segments.deep_view() =~= self@.push(seg@));
        }
        SafePath { segments }
    }
}

/// Decides `seg_ok` for one segment.
pub fn segment_is_plain(s: &String) -> (r: bool)
    ensures
        r == seg_ok(s@),
{
    let n = s.as_str().unicode_len();
    if n == 0 {
        return false;
    }
    if n == 1 && s.as_str().get_char(0) == '.' {
        proof {
            assert(s@ =~= seq!['.']);
        }
        return false;
    }
    if n == 2 && s.as_str().get_char(0) == '.' && s.as_str().get_char(1) == '.' {
        proof {
            assert(s@ =~= seq!['.', '.']);
        }
        return false;
    }
    let mut i: usize = 0;
    while i < n
        invariant
            n == s@.len(),
            i <= n,
            n > 0,
            !(n == 1 && s@[0] == '.'),
            !(n == 2 && s@[0] == '.' && s@[1] == '.'),
            forall|k: int| 0 <= k < i ==> s@[k] != '/',
        decreases n - i,
    {
        if s.as_str().get_char(i) == '/' {
            return false;
        }
        i += 1;
    }
    proof {
        if s@ == seq!['.'] {
            assert(s@[0] == '.');
            assert(false);
        }
        if s@ == seq!['.', '.'] {
            assert(s@[0] == '.');
            assert(s@[1] == '.');
            assert(false);
        }
    }
    true
}

} // verus!

// ---- entry-path sanitisation ----

verus! {

/// One resolution step: empty pieces and `.` leave the accumulated
/// segments alone, `..` removes the last one and fails when there is none,
/// and any other piece becomes a new segment.
pub open spec fn apply_seg(st: Option<Seq<Seq<char>>>, piece: Seq<char>) -> Option<
    Seq<Seq<char>>,
> {
    match st {
        None => None,
        Some(segs) => {
            if piece.len() == 0 || piece == seq!['.'] {
                Some(segs)
            } else if piece == seq!['.', '.'] {
                if segs.len() == 0 {
                    None
                } else {
                    Some(segs.drop_last())
                }
            } else {
                Some(segs.push(piece))
            }
        },
    }
}

/// Resolves the `/`-separated pieces of `s` against the segments in `st`,
/// one `apply_seg` step per piece. `None` means a `..` tried to climb
/// above the starting point.
pub open spec fn resolve_from(st: Option<Seq<Seq<char>>>, s: Seq<char>) -> Option<Seq<Seq<char>>>
    decreases s.len(),
    via resolve_from_decreases
{
    let st2 = apply_seg(st, crate::text::before_first(s, '/'));
    if crate::text::contains_char(s, '/') {
        resolve_from(st2, crate::text::after_first(s, '/'))
    } else {
        st2
    }
}

#[via_fn]
proof fn resolve_from_decreases(st: Option<Seq<Seq<char>>>, s: Seq<char>) {
    if crate::text::contains_char(s, '/') {
        crate::text::lemma_after_first_shorter(s, '/');
    }
}

/// Resolving from `None` stays `None`.
pub proof fn lemma_resolve_none(s: Seq<char>)
    ensures
        resolve_from(None, s) is None,
    decreases s.len(),
{
    if crate::text::contains_char(s, '/') {
        crate::text::lemma_after_first_shorter(s, '/');
        lemma_resolve_none(crate::text::after_first(s, '/'));
    }
}

/// Resolution only ever accumulates plain name segments.
pub proof fn lemma_resolve_wf(st: Option<Seq<Seq<char>>>, s: Seq<char>)
    requires
        st matches Some(acc) ==> forall|i: int| 0 <= i < acc.len() ==> seg_ok(#[trigger] acc[i]),
    ensures
        resolve_from(st, s) matches Some(r) ==> forall|i: int|
            0 <= i < r.len() ==> seg_ok(#[trigger] r[i]),
    decreases s.len(),
{
    let piece = crate::text::before_first(s, '/');
    crate::text::lemma_before_first_clean(s, '/');
    let st2 = apply_seg(st, piece);
    assert(st2 matches Some(acc2) ==> forall|i: int|
        0 <= i < acc2.len() ==> seg_ok(#[trigger] acc2[i])) by {
        if st matches Some(acc) {
            if !(piece.len() == 0 || piece == seq!['.']) && piece != seq!['.', '.'] {
                assert(forall|k: int|
                    0 <= k < piece.len() ==> piece[k] != '/') by {
                    assert(!crate::text::contains_char(piece, '/'));
                }
                assert(seg_ok(piece));
            }
        }
    }
    if crate::text::contains_char(s, '/') {
        crate::text::lemma_after_first_shorter(s, '/');
        lemma_resolve_wf(st2, crate::text::after_first(s, '/'));
    }
}

/// Where an archive entry named `name` may be written below `root`: the
/// name's pieces are resolved by `resolve_from`, and the result is placed
/// below `root`. `None` for absolute names and for names that climb above
/// `root`.
pub open spec fn sanitize_spec(root: Seq<Seq<char>>, name: Seq<char>) -> Option<Seq<Seq<char>>> {
    if name.len() > 0 && name[0] == '/' {
        None
    } else {
        match resolve_from(Some(Seq::empty()), name) {
            None => None,
            Some(rel) => Some(root + rel),
        }
    }
}

fn resolve_rel_exec(acc: Vec<String>, s: &str) -> (r: Option<Vec<String>>)
    ensures
        match r {
            Some(v) => resolve_from(Some(acc.deep_view()), s@) == Some(v.deep_view()),
            None => resolve_from(Some(acc.deep_view()), s@) is None,
        },
    decreases s@.len(),
{
    let n = s.unicode_len();
    let sep = crate::text::find_char(s, '/');
    let piece: &str = match sep {
        None => s,
        Some(i) => s.substring_char(0, i),
    };
    proof {
        match sep {
            None => {
                crate::text::lemma_first_index(s@, '/', n as int);
                assert(s@.take(n as int) =~= s@);
            },
            Some(i) => {
                crate::text::lemma_first_index(s@, '/', i as int);
                assert(s@.take(i as int) =~= s@.subrange(0, i as int));
            },
        }
    }
    let mut acc = acc;
    let ghost st2 = apply_seg(Some(acc.deep_view()), piece@);
    let plen = piece.unicode_len();
    if plen == 0 || crate::text::str_eq(piece, ".") {
        proof {
            reveal_strlit(".");
            assert("."@ =~= seq!['.']);
        }
    } else if crate::text::str_eq(piece, "..") {
        proof {
            reveal_strlit(".");
            reveal_strlit("..");
            assert("."@ =~= seq!['.']);
            assert(".."@ =~= seq!['.', '.']);
        }
        if acc.len() == 0 {
            proof {
                assert(st2 is None);
                if crate::text::contains_char(s@, '/') {
                    lemma_resolve_none(crate::text::after_first(s@, '/'));
                }
            }
            return None;
        }
        acc.pop();
        proof {
            assert(Some(acc.deep_view()) =~= st2);
        }
    } else {
        proof {
            reveal_strlit(".");
            reveal_strlit("..");
            assert("."@ =~= seq!['.']);
            assert(".."@ =~= seq!['.', '.']);
        }
        acc.push(String::from_str(piece));
        proof {
            assert(Some(acc.deep_view()) =~= st2);
        }
    }
    match sep {
        None => Some(acc),
        Some(i) => {
            let rest = s.substring_char(i + 1, n);
            resolve_rel_exec(acc, rest)
        },
    }
}

impl SafePath {
    /// The same path extended by every segment of `rest`, in order.
    pub fn append_segments(&self, rest: &Vec<String>) -> (r: SafePath)
        ensures
            r@ == self@ + rest.deep_view(),
    {
        let mut segments = self.segments.clone();
        proof {
            assert forall|i: int| 0 <= i < segments@.len() implies segments@[i]@
                == self.segments@[i]@ by {
                assert(cloned::<String>(self.segments[i], segments[i]));
            }
            assert(segments.deep_view() =~= self@);
            assert(self@ + rest.deep_view().take(0) =~= self@);
        }
        let mut i: usize = 0;
        while i < rest.len()
            invariant
                i <= rest.len(),
                segments.deep_view() == self@ + rest.deep_view().take(i as int),
            decreases rest.len() - i,
        {
            let ghost pre = segments.deep_view();
            segments.push(rest[i].clone());
            proof {
                assert(segments.deep_view() =~= pre.push(rest.deep_view()[i as int]));
                assert(pre.push(rest.deep_view()[i as int]) =~= self@ + rest.deep_view().take(
                    i as int + 1,
                ));
            }
            i += 1;
        }
        proof {
            assert(self@ + rest.deep_view().take(rest@.len() as int) =~= self@ + rest.deep_view());
        }
        SafePath { segments }
    }
}

/// Resolves an archive entry's declared name to its destination below
/// `root`, rejecting absolute names and names that climb above `root`
/// with a `PathTraversal` error that carries the offending name.
pub fn sanitize_entry_path(root: &SafePath, name: &str) -> (r: Result<
    SafePath,
    crate::errors::InstallError,
>)
    ensures
        match r {
            Ok(p) => {
                &&& sanitize_spec(root@, name@) == Some(p@)
                &&& extends_safely(root@, p@)
                &&& (root.wf() ==> p.wf())
            },
            Err(e) => {
                &&& sanitize_spec(root@, name@) is None
                &&& (e matches crate::errors::InstallError::PathTraversal { path } && path@
                    == name@)
            },
        },
{
    if name.unicode_len() > 0 && name.get_char(0) == '/' {
        return Err(
            crate::errors::InstallError::PathTraversal { path: String::from_str(name) },
        );
    }
    let empty_acc: Vec<String> = Vec::new();
    proof {
        assert(empty_acc.deep_view() =~= Seq::<Seq<char>>::empty());
    }
    match resolve_rel_exec(empty_acc, name) {
        None => Err(crate::errors::InstallError::PathTraversal { path: String::from_str(name) }),
        Some(rel) => {
            let p = root.append_segments(&rel);
            proof {
                lemma_resolve_wf(Some(Seq::<Seq<char>>::empty()), name@);
                lemma_extension_is_within(root@, rel.deep_view());
            }
            Ok(p)
        },
    }
}

/// The segments joined by `/`, for error reports.
pub open spec fn joined(p: Seq<Seq<char>>) -> Seq<char>
    decreases p.len(),
{
    if p.len() == 0 {
        Seq::empty()
    } else if p.len() == 1 {
        p[0]
    } else {
        joined(p.drop_last()) + seq!['/'] + p.last()
    }
}

/// Renders the path with `/` between segments.
pub fn path_display(p: &SafePath) -> (r: String)
    ensures
        r@ == joined(p@),
{
    let mut out = String::new();
    let mut i: usize = 0;
    proof {
        assert(p@.take(0) =~= Seq::<Seq<char>>::empty());
    }
    while i < p.segments.len()
        invariant
            i <= p.segments.len(),
            out@ == joined(p@.take(i as int)),
        decreases p.segments.len() - i,
    {
        if i > 0 {
            out = out.concat("/");
            proof {
                reveal_strlit("/");
                assert("/"@ =~= seq!['/']);
            }
        }
        out = out.concat(p.segments[i].as_str());
        proof {
            let t = p@.take(i as int + 1);
            assert(t.drop_last() =~= p@.take(i as int));
            assert(t.last() == p@[i as int]);
            if i == 0 {
                assert(out@ =~= joined(t));
            }
        }
        i += 1;
    }
    proof {
        assert(p@.take(p@.len() as int) =~= p@);
    }
    out
}

/// Checks that `path` is `base` or below it, per `is_within`: the check
/// that stands between every computed destination and the disk.
pub fn ensure_safe_path(base: &SafePath, path: &SafePath) -> (r: Result<
    (),
    crate::errors::InstallError,
>)
    ensures
        r is Ok <==> is_within(base@, path@),
        r matches Err(e) ==> (e matches crate::errors::InstallError::PathTraversal { path: q }
            && q@ == joined(path@)),
{
    if path.segments.len() < base.segments.len() {
        return Err(crate::errors::InstallError::PathTraversal { path: path_display(path) });
    }
    let mut i: usize = 0;
    while i < base.segments.len()
        invariant
            base.segments.len() <= path.segments.len(),
            i <= base.segments.len(),
            forall|k: int| 0 <= k < i ==> path@[k] == base@[k],
        decreases base.segments.len() - i,
    {
        if !(path.segments[i] == base.segments[i]) {
            proof {
                if is_within(base@, path@) {
                    assert(path@.subrange(0, base@.len() as int)[i as int] == base@[i as int]);
                }
            }
            return Err(crate::errors::InstallError::PathTraversal { path: path_display(path) });
        }
        i += 1;
    }
    proof {
        assert(path@.subrange(0, base@.len() as int) =~= base@);
    }
    Ok(())
}

/// Compares two paths segment by segment.
pub fn paths_equal(a: &SafePath, b: &SafePath) -> (r: bool)
    ensures
        r == (a@ == b@),
{
    if a.segments.len() != b.segments.len() {
        proof {
            assert(a@.len() != b@.len());
        }
        return false;
    }
    let mut i: usize = 0;
    while i < a.segments.len()
        invariant
            a.segments.len() == b.segments.len(),
            i <= a.segments.len(),
            forall|k: int| 0 <= k < i ==> a@[k] == b@[k],
        decreases a.segments.len() - i,
    {
        if !(a.segments[i] == b.segments[i]) {
            proof {
                assert(a@[i as int] == a.segments@[i as int]@);
                assert(b@[i as int] == b.segments@[i as int]@);
            }
            return false;
        }
        i += 1;
    }
    proof {
        assert(a@ =~= b@);
    }
    true
}

} // verus!

// ---- further containment lemmas ----

verus! {

/// Safe extension is transitive.
pub proof fn lemma_extends_trans(a: Seq<Seq<char>>, b: Seq<Seq<char>>, c: Seq<Seq<char>>)
    requires
        extends_safely(a, b),
        extends_safely(b, c),
    ensures
        extends_safely(a, c),
{
    assert(c.subrange(0, a.len() as int) =~= b.subrange(0, a.len() as int));
    assert forall|i: int| a.len() <= i < c.len() implies seg_ok(#[trigger] c[i]) by {
        if i < b.len() {
            assert(c.subrange(0, b.len() as int)[i] == c[i]);
            assert(b[i] == c[i]);
        }
    }
}

/// Whatever the sanitizer accepts extends the root safely.
pub proof fn lemma_sanitize_safe(root: Seq<Seq<char>>, name: Seq<char>)
    ensures
        sanitize_spec(root, name) matches Some(p) ==> extends_safely(root, p),
{
    if sanitize_spec(root, name) matches Some(p) {
        let rel = resolve_from(Some(Seq::empty()), name)->Some_0;
        lemma_resolve_wf(Some(Seq::<Seq<char>>::empty()), name);
        lemma_extension_is_within(root, rel);
    }
}

impl SafePath {
    /// A copy of the path.
    pub fn clone_path(&self) -> (r: SafePath)
        ensures
            r@ == self@,
    {
        let segments = self.segments.clone();
        proof {
            assert forall|i: int| 0 <= i < segments@.len() implies segments@[i]@
                == self.segments@[i]@ by {
                assert(cloned::<String>(self.segments[i], segments[i]));
            }
            assert(segments.deep_view() =~= self@);
        }
        SafePath { segments }
    }
}

} // verus!
