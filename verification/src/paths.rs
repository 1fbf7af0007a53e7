//! Relative-path handling: component parsing, normalisation, and the
//! safety rules that keep planned paths inside the working directory.
//!
//! Paths are Unix-style strings. Their components follow the rules of
//! `std::path::Path::components`: repeated separators are collapsed, `.`
//! is dropped except at the start of a relative path, and a leading `/`
//! is the root.

use vstd::prelude::*;
use crate::text::{chars_of, push_char, push_str, string_from_chars};

verus! {

/// One component of a path, as a value.
pub enum Comp {
    Root,
    Cur,
    Parent,
    Normal(Seq<char>),
}

/// One component of a path.
pub enum PathComponent {
    RootDir,
    CurDir,
    ParentDir,
    Normal(String),
}

impl PathComponent {
    fn is_root_dir(&self) -> (r: bool)
        ensures
            r == (self@ == Comp::Root),
    {
        match self {
            PathComponent::RootDir => true,
            _ => false,
        }
    }

    fn is_cur_dir(&self) -> (r: bool)
        ensures
            r == (self@ == Comp::Cur),
    {
        match self {
            PathComponent::CurDir => true,
            _ => false,
        }
    }

    fn is_parent_dir(&self) -> (r: bool)
        ensures
            r == (self@ == Comp::Parent),
    {
        match self {
            PathComponent::ParentDir => true,
            _ => false,
        }
    }
}

impl View for PathComponent {
    type V = Comp;

    open spec fn view(&self) -> Comp {
        match self {
            PathComponent::RootDir => Comp::Root,
            PathComponent::CurDir => Comp::Cur,
            PathComponent::ParentDir => Comp::Parent,
            PathComponent::Normal(s) => Comp::Normal(s@),
        }
    }
}

/// The pieces of `s` between occurrences of `sep` (always at least one piece).
pub open spec fn split(s: Seq<char>, sep: char) -> Seq<Seq<char>>
    decreases s.len(),
{
    if s.len() == 0 {
        seq![Seq::<char>::empty()]
    } else if s.last() == sep {
        split(s.drop_last(), sep).push(Seq::<char>::empty())
    } else {
        let p = split(s.drop_last(), sep);
        p.update(p.len() - 1, p.last().push(s.last()))
    }
}

/// Splitting always yields at least one piece.
pub proof fn lemma_split_nonempty(s: Seq<char>, sep: char)
    ensures
        split(s, sep).len() >= 1,
    decreases s.len(),
{
    if s.len() > 0 {
        lemma_split_nonempty(s.drop_last(), sep);
    }
}

pub open spec fn dot() -> Seq<char> {
    seq!['.']
}

pub open spec fn dot_dot() -> Seq<char> {
    seq!['.', '.']
}

/// The component a separator-free piece stands for; `first` is true only
/// for the first piece of a relative path, where a lone `.` is kept.
pub open spec fn piece_comp(piece: Seq<char>, first: bool) -> Option<Comp> {
    if piece.len() == 0 {
        None
    } else if piece == dot() {
        if first { Some(Comp::Cur) } else { None }
    } else if piece == dot_dot() {
        Some(Comp::Parent)
    } else {
        Some(Comp::Normal(piece))
    }
}

pub open spec fn comps_of_pieces(pieces: Seq<Seq<char>>, relative: bool) -> Seq<Comp>
    decreases pieces.len(),
{
    if pieces.len() == 0 {
        Seq::empty()
    } else {
        let prev = comps_of_pieces(pieces.drop_last(), relative);
        match piece_comp(pieces.last(), relative && pieces.len() == 1) {
            Some(c) => prev.push(c),
            None => prev,
        }
    }
}

pub open spec fn is_absolute(p: Seq<char>) -> bool {
    p.len() > 0 && p[0] == '/'
}

/// The components of a path.
pub open spec fn components(p: Seq<char>) -> Seq<Comp> {
    if is_absolute(p) {
        seq![Comp::Root] + comps_of_pieces(split(p, '/'), false)
    } else {
        comps_of_pieces(split(p, '/'), true)
    }
}

fn is_dot(piece: &Vec<char>) -> (b: bool)
    ensures
        b == (piece@ == dot()),
{
    let r = piece.len() == 1 && piece[0] == '.';
    proof {
        if piece@ == dot() {
            assert(piece@.len() == 1);
        }
        if r {
            assert(piece@ =~= dot());
        }
    }
    r
}

fn is_dot_dot(piece: &Vec<char>) -> (b: bool)
    ensures
        b == (piece@ == dot_dot()),
{
    let r = piece.len() == 2 && piece[0] == '.' && piece[1] == '.';
    proof {
        if piece@ == dot_dot() {
            assert(piece@.len() == 2);
            assert(piece@[0] == dot_dot()[0]);
        }
        if r {
            assert(piece@ =~= dot_dot());
        }
    }
    r
}

fn push_piece(out: &mut Vec<PathComponent>, piece: &Vec<char>, first: bool)
    ensures
        final(out)@.map_values(|c: PathComponent| c@) == match piece_comp(piece@, first) {
            Some(c) => old(out)@.map_values(|c: PathComponent| c@).push(c),
            None => old(out)@.map_values(|c: PathComponent| c@),
        },
{
    if piece.len() == 0 {
    } else if is_dot(piece) {
        if first {
            out.push(PathComponent::CurDir);
        }
    } else if is_dot_dot(piece) {
        out.push(PathComponent::ParentDir);
    } else {
        let s = string_from_chars(piece);
        out.push(PathComponent::Normal(s));
    }
    proof {
        assert(final(out)@.map_values(|c: PathComponent| c@) =~= match piece_comp(piece@, first) {
            Some(c) => old(out)@.map_values(|c: PathComponent| c@).push(c),
            None => old(out)@.map_values(|c: PathComponent| c@),
        });
    }
}

/// Splits a path into its components (`Path::components`).
pub fn path_components(p: &str) -> (v: Vec<PathComponent>)
    ensures
        v@.map_values(|c: PathComponent| c@) == components(p@),
{
    let cs = chars_of(p);
    let absolute = cs.len() > 0 && cs[0] == '/';
    let relative = !absolute;
    let mut out: Vec<PathComponent> = Vec::new();
    if absolute {
        out.push(PathComponent::RootDir);
    }
    let ghost base: Seq<Comp> = if absolute { seq![Comp::Root] } else { Seq::empty() };
    let mut piece: Vec<char> = Vec::new();
    let mut done_pieces: usize = 0;
    let mut i: usize = 0;
    proof {
        assert(cs@.subrange(0, 0) =~= Seq::<char>::empty());
        assert(out@.map_values(|c: PathComponent| c@) =~= base);
    }
    while i < cs.len()
        invariant
            0 <= i <= cs.len(),
            done_pieces <= i,
            cs@ == p@,
            absolute == is_absolute(p@),
            relative == !absolute,
            base == (if absolute { seq![Comp::Root] } else { Seq::<Comp>::empty() }),
            split(cs@.subrange(0, i as int), '/').len() == done_pieces + 1,
            piece@ == split(cs@.subrange(0, i as int), '/').last(),
            out@.map_values(|c: PathComponent| c@) == base + comps_of_pieces(
                split(cs@.subrange(0, i as int), '/').drop_last(),
                relative,
            ),
        decreases cs.len() - i,
    {
        let c = cs[i];
        let ghost pre = cs@.subrange(0, i as int);
        let ghost next = cs@.subrange(0, i + 1);
        proof {
            assert(next.drop_last() =~= pre);
            assert(next.last() == c);
            lemma_split_nonempty(pre, '/');
        }
        if c == '/' {
            let ghost pieces = split(pre, '/');
            proof {
                assert(split(next, '/') == pieces.push(Seq::<char>::empty()));
                assert(split(next, '/').drop_last() =~= pieces);
                assert(pieces.drop_last().len() + 1 == pieces.len());
            }
            push_piece(&mut out, &piece, relative && done_pieces == 0);
            proof {
                assert(pieces.drop_last() =~= pieces.drop_last());
                let cp = comps_of_pieces(pieces, relative);
                assert(cp == match piece_comp(pieces.last(), relative && pieces.len() == 1) {
                    Some(x) => comps_of_pieces(pieces.drop_last(), relative).push(x),
                    None => comps_of_pieces(pieces.drop_last(), relative),
                });
                assert(out@.map_values(|c: PathComponent| c@) =~= base + cp);
            }
            piece = Vec::new();
            done_pieces = done_pieces + 1;
            proof {
                assert(piece@ =~= split(next, '/').last());
            }
        } else {
            piece.push(c);
            proof {
                let pieces = split(pre, '/');
                assert(split(next, '/') == pieces.update(pieces.len() - 1, pieces.last().push(c)));
                assert(split(next, '/').drop_last() =~= pieces.drop_last());
            }
        }
        i = i + 1;
    }
    proof {
        assert(cs@.subrange(0, cs.len() as int) =~= p@);
        lemma_split_nonempty(p@, '/');
    }
    push_piece(&mut out, &piece, relative && done_pieces == 0);
    proof {
        let pieces = split(p@, '/');
        assert(out@.map_values(|c: PathComponent| c@) =~= base + comps_of_pieces(pieces, relative));
        if absolute {
            assert(components(p@) == seq![Comp::Root] + comps_of_pieces(pieces, false));
        }
    }
    out
}

} // verus!

verus! {

/// Progress of normalisation over a path's components.
pub enum NormState {
    Going { kept: Seq<Seq<char>>, leading: nat, saw_normal: bool },
    Rejected,
}

pub open spec fn norm_step(st: NormState, c: Comp) -> NormState {
    match st {
        NormState::Rejected => NormState::Rejected,
        NormState::Going { kept, leading, saw_normal } => match c {
            Comp::Root => NormState::Rejected,
            Comp::Cur => st,
            Comp::Parent => if saw_normal {
                if kept.len() == 0 {
                    NormState::Rejected
                } else {
                    NormState::Going { kept: kept.drop_last(), leading, saw_normal }
                }
            } else {
                NormState::Going { kept, leading: leading + 1, saw_normal }
            },
            Comp::Normal(name) => if leading > 0 {
                NormState::Rejected
            } else {
                NormState::Going { kept: kept.push(name), leading, saw_normal: true }
            },
        },
    }
}

pub open spec fn norm_fold(cs: Seq<Comp>) -> NormState
    decreases cs.len(),
{
    if cs.len() == 0 {
        NormState::Going { kept: Seq::empty(), leading: 0, saw_normal: false }
    } else {
        norm_step(norm_fold(cs.drop_last()), cs.last())
    }
}

/// `parts[0] + sep + parts[1] + ... + parts[n-1]`.
pub open spec fn join(parts: Seq<Seq<char>>, sep: Seq<char>) -> Seq<char>
    decreases parts.len(),
{
    if parts.len() == 0 {
        Seq::empty()
    } else if parts.len() == 1 {
        parts[0]
    } else {
        join(parts.drop_last(), sep) + sep + parts.last()
    }
}

/// The normal form of a relative path: `.` removed and `..` resolved
/// against the names before it; none for absolute paths, for paths that
/// climb above their start, and for paths that name nothing.
pub open spec fn normalized(p: Seq<char>) -> Option<Seq<char>> {
    match norm_fold(components(p)) {
        NormState::Rejected => None,
        NormState::Going { kept, .. } => if kept.len() == 0 {
            None
        } else {
            Some(join(kept, seq!['/']))
        },
    }
}

/// A string holding the parts joined by `sep`.
pub fn join_strings(parts: &Vec<String>, sep: &str) -> (s: String)
    ensures
        s@ == join(parts@.map_values(|x: String| x@), sep@),
{
    let ghost pv = parts@.map_values(|x: String| x@);
    let mut s = String::new();
    let mut i: usize = 0;
    while i < parts.len()
        invariant
            0 <= i <= parts.len(),
            pv == parts@.map_values(|x: String| x@),
            s@ == join(pv.subrange(0, i as int), sep@),
        decreases parts.len() - i,
    {
        proof {
            let q = pv.subrange(0, i + 1);
            assert(q.drop_last() =~= pv.subrange(0, i as int));
            assert(q.last() == parts@[i as int]@);
        }
        if i > 0 {
            s.append(sep);
        }
        s.append(parts[i].as_str());
        proof {
            let q = pv.subrange(0, i + 1);
            if i == 0 {
                assert(s@ =~= q[0]);
            } else {
                assert(s@ =~= join(q.drop_last(), sep@) + sep@ + q.last());
            }
        }
        i = i + 1;
    }
    proof {
        assert(pv.subrange(0, parts.len() as int) =~= pv);
    }
    s
}

/// Normalises a relative path by dropping `.` and resolving `..`; `None`
/// when the path is absolute, climbs above its start, or names nothing.
pub fn normalize_path(path: &str) -> (r: Option<String>)
    ensures
        r matches Some(s) ==> normalized(path@) == Some(s@),
        r is None ==> normalized(path@) is None,
{
    let comps = path_components(path);
    let ghost cv = comps@.map_values(|c: PathComponent| c@);
    let mut kept: Vec<String> = Vec::new();
    let mut leading: usize = 0;
    let mut saw_normal = false;
    let mut i: usize = 0;
    proof {
        assert(cv.subrange(0, 0) =~= Seq::<Comp>::empty());
        assert(kept@.map_values(|x: String| x@) =~= Seq::<Seq<char>>::empty());
    }
    while i < comps.len()
        invariant
            0 <= i <= comps.len(),
            leading <= i,
            cv == comps@.map_values(|c: PathComponent| c@),
            cv == components(path@),
            norm_fold(cv.subrange(0, i as int)) == (NormState::Going {
                kept: kept@.map_values(|x: String| x@),
                leading: leading as nat,
                saw_normal,
            }),
        decreases comps.len() - i,
    {
        let ghost kv0 = kept@.map_values(|x: String| x@);
        proof {
            assert(cv.subrange(0, i + 1).drop_last() =~= cv.subrange(0, i as int));
            assert(cv.subrange(0, i + 1).last() == comps@[i as int]@);
        }
        match &comps[i] {
            PathComponent::RootDir => {
                proof {
                    lemma_rejected_stays(cv, i as int + 1);
                }
                return None;
            },
            PathComponent::CurDir => {},
            PathComponent::ParentDir => {
                if saw_normal {
                    if kept.len() == 0 {
                        proof {
                            lemma_rejected_stays(cv, i as int + 1);
                        }
                        return None;
                    }
                    kept.pop();
                    proof {
                        assert(kept@.map_values(|x: String| x@) =~= kv0.drop_last());
                    }
                } else {
                    leading = leading + 1;
                }
            },
            PathComponent::Normal(name) => {
                if leading > 0 {
                    proof {
                        lemma_rejected_stays(cv, i as int + 1);
                    }
                    return None;
                }
                saw_normal = true;
                kept.push(name.clone());
                proof {
                    assert(kept@.map_values(|x: String| x@) =~= kv0.push(name@));
                }
            },
        }
        proof {
            assert(norm_fold(cv.subrange(0, i + 1)) == norm_step(norm_fold(cv.subrange(0, i as int)), cv[i as int]));
        }
        i = i + 1;
    }
    proof {
        assert(cv.subrange(0, comps.len() as int) =~= cv);
    }
    if kept.len() == 0 {
        None
    } else {
        proof {
            reveal_strlit("/");
            assert("/"@ =~= seq!['/']);
        }
        let joined = join_strings(&kept, "/");
        assert(normalized(path@) == Some(joined@));
        Some(joined)
    }
}

/// Once normalisation has rejected a prefix, it rejects the whole path.
proof fn lemma_rejected_stays(cv: Seq<Comp>, j: int)
    requires
        0 <= j <= cv.len(),
        norm_fold(cv.subrange(0, j)) == NormState::Rejected,
    ensures
        norm_fold(cv) == NormState::Rejected,
    decreases cv.len() - j,
{
    if j < cv.len() {
        assert(cv.subrange(0, j + 1).drop_last() =~= cv.subrange(0, j));
        lemma_rejected_stays(cv, j + 1);
    } else {
        assert(cv.subrange(0, j) =~= cv);
    }
}

} // verus!

verus! {

/// A path is a safe relative path when it is non-empty and normalises
/// without being absolute or climbing above its start.
pub open spec fn safe_relative(p: Seq<char>) -> bool {
    p.len() > 0 && normalized(p) is Some
}

/// Checks that a path is relative, non-empty, and never climbs above its start.
pub fn is_safe_relative_path(path: &str) -> (b: bool)
    ensures
        b == safe_relative(path@),
{
    if path.is_empty() {
        return false;
    }
    normalize_path(path).is_some()
}

fn same_component(a: &PathComponent, b: &PathComponent) -> (r: bool)
    ensures
        r == (a@ == b@),
{
    match a {
        PathComponent::RootDir => {
            assert(a@ == Comp::Root);
            b.is_root_dir()
        },
        PathComponent::CurDir => {
            assert(a@ == Comp::Cur);
            b.is_cur_dir()
        },
        PathComponent::ParentDir => {
            assert(a@ == Comp::Parent);
            b.is_parent_dir()
        },
        PathComponent::Normal(x) => match b {
            PathComponent::Normal(y) => *x == *y,
            _ => false,
        },
    }
}

/// `a` is a prefix of `b`.
pub open spec fn is_prefix<T>(a: Seq<T>, b: Seq<T>) -> bool {
    a.len() <= b.len() && b.subrange(0, a.len() as int) == a
}

/// `Path::starts_with`: the components of `base` begin the components of `p`.
pub open spec fn starts_with_path(p: Seq<char>, base: Seq<char>) -> bool {
    is_prefix(components(base), components(p))
}

/// Two paths overlap when they are equal or one lies under the other.
pub open spec fn overlap(p1: Seq<char>, p2: Seq<char>) -> bool {
    starts_with_path(p1, p2) || starts_with_path(p2, p1)
}

fn comps_prefix(a: &Vec<PathComponent>, b: &Vec<PathComponent>) -> (r: bool)
    ensures
        r == is_prefix(a@.map_values(|c: PathComponent| c@), b@.map_values(|c: PathComponent| c@)),
{
    let ghost av = a@.map_values(|c: PathComponent| c@);
    let ghost bv = b@.map_values(|c: PathComponent| c@);
    if a.len() > b.len() {
        return false;
    }
    let mut i: usize = 0;
    while i < a.len()
        invariant
            0 <= i <= a.len() <= b.len(),
            av == a@.map_values(|c: PathComponent| c@),
            bv == b@.map_values(|c: PathComponent| c@),
            forall|k: int| 0 <= k < i ==> av[k] == bv[k],
        decreases a.len() - i,
    {
        if !same_component(&a[i], &b[i]) {
            proof {
                assert(av[i as int] != bv[i as int]);
                assert(bv.subrange(0, av.len() as int)[i as int] != av[i as int]);
            }
            return false;
        }
        i = i + 1;
    }
    proof {
        assert(bv.subrange(0, av.len() as int) =~= av);
    }
    true
}

/// True when the paths are equal or one lies under the other (by components).
pub fn paths_overlap(p1: &str, p2: &str) -> (b: bool)
    ensures
        b == overlap(p1@, p2@),
{
    let c1 = path_components(p1);
    let c2 = path_components(p2);
    comps_prefix(&c2, &c1) || comps_prefix(&c1, &c2)
}

/// True when the path overlaps at least one of the areas.
pub fn path_matches_any_area(path: &str, areas: &Vec<String>) -> (b: bool)
    ensures
        b == exists|i: int| 0 <= i < areas.len() && overlap(path@, #[trigger] areas@[i]@),
{
    let mut i: usize = 0;
    while i < areas.len()
        invariant
            0 <= i <= areas.len(),
            forall|k: int| 0 <= k < i ==> !overlap(path@, #[trigger] areas@[k]@),
        decreases areas.len() - i,
    {
        if paths_overlap(path, areas[i].as_str()) {
            return true;
        }
        i = i + 1;
    }
    false
}

/// The directory that directly holds a path, by name; `root` when the path
/// has no named parent directory.
pub open spec fn module_of(p: Seq<char>) -> Seq<char> {
    let cs = components(p);
    if cs.len() >= 2 && cs[cs.len() - 2] is Normal {
        cs[cs.len() - 2]->Normal_0
    } else {
        seq!['r', 'o', 'o', 't']
    }
}

/// Module identifier of a path: its immediate parent directory's name, or
/// `root` for files without one.
pub fn extract_module(path: &str) -> (m: String)
    ensures
        m@ == module_of(path@),
{
    let cs = path_components(path);
    let ghost cv = cs@.map_values(|c: PathComponent| c@);
    let n = cs.len();
    if n >= 2 {
        match &cs[n - 2] {
            PathComponent::Normal(name) => {
                return name.clone();
            },
            _ => {},
        }
    }
    proof {
        reveal_strlit("root");
        assert("root"@ =~= seq!['r', 'o', 'o', 't']);
    }
    String::from_str("root")
}

/// `base` joined with `name`, as `Path::join` joins them: an absolute
/// `name` replaces `base`, and a separator is put between the two unless
/// `base` is empty or already ends in one.
pub open spec fn path_join(base: Seq<char>, name: Seq<char>) -> Seq<char> {
    if name.len() > 0 && name[0] == '/' {
        name
    } else if base.len() == 0 || base.last() == '/' {
        base + name
    } else {
        base + seq!['/'] + name
    }
}

/// Joins `name` onto the directory `base`.
pub fn join_path(base: &str, name: &str) -> (p: String)
    ensures
        p@ == path_join(base@, name@),
{
    let nl = name.unicode_len();
    if nl > 0 && name.get_char(0) == '/' {
        return name.to_string();
    }
    let bl = base.unicode_len();
    let mut p = base.to_string();
    if bl > 0 && base.get_char(bl - 1) != '/' {
        push_char(&mut p, '/');
    }
    push_str(&mut p, name);
    p
}

} // verus!

verus! {

/// A name that a normal component can hold: not empty, no separator, and
/// neither `.` nor `..`.
pub open spec fn good_name(n: Seq<char>) -> bool {
    n.len() > 0 && !n.contains('/') && n != dot() && n != dot_dot()
}

pub open spec fn all_good(ns: Seq<Seq<char>>) -> bool {
    forall|i: int| 0 <= i < ns.len() ==> good_name(#[trigger] ns[i])
}

/// The pieces of a split hold no separator.
proof fn lemma_split_pieces(s: Seq<char>)
    ensures
        forall|i: int| 0 <= i < split(s, '/').len() ==> !(#[trigger] split(s, '/')[i]).contains('/'),
        split(s, '/').len() >= 1,
    decreases s.len(),
{
    if s.len() > 0 {
        lemma_split_pieces(s.drop_last());
        let p = split(s.drop_last(), '/');
        if s.last() != '/' {
            let q = p.update(p.len() - 1, p.last().push(s.last()));
            assert forall|i: int| 0 <= i < q.len() implies !(#[trigger] q[i]).contains('/') by {
                if i == p.len() - 1 {
                    assert(!p[i].contains('/'));
                    if q[i].contains('/') {
                        let j = choose|j: int| 0 <= j < q[i].len() && q[i][j] == '/';
                        assert(q[i][j] == p[i].push(s.last())[j]);
                        if j < p[i].len() {
                            assert(p[i][j] == '/');
                        }
                    }
                }
            }
        } else {
            let q = p.push(Seq::<char>::empty());
            assert forall|i: int| 0 <= i < q.len() implies !(#[trigger] q[i]).contains('/') by {
                if i < p.len() {
                    assert(q[i] == p[i]);
                }
            }
        }
    }
}

/// The normal names among the components of a path are good names.
proof fn lemma_pieces_comps(pieces: Seq<Seq<char>>, relative: bool)
    requires
        forall|i: int| 0 <= i < pieces.len() ==> !(#[trigger] pieces[i]).contains('/'),
    ensures
        forall|i: int| 0 <= i < comps_of_pieces(pieces, relative).len() ==> (#[trigger] comps_of_pieces(pieces, relative)[i] matches Comp::Normal(n) ==> good_name(n)),
    decreases pieces.len(),
{
    if pieces.len() > 0 {
        lemma_pieces_comps(pieces.drop_last(), relative);
        let prev = comps_of_pieces(pieces.drop_last(), relative);
        let last = pieces.last();
        assert(!last.contains('/'));
        match piece_comp(last, relative && pieces.len() == 1) {
            Some(c) => {
                assert forall|i: int| 0 <= i < prev.push(c).len() implies (#[trigger] prev.push(c)[i] matches Comp::Normal(n) ==> good_name(n)) by {
                    if i < prev.len() {
                        assert(prev.push(c)[i] == prev[i]);
                    }
                }
            },
            None => {},
        }
    }
}

proof fn lemma_components_good(p: Seq<char>)
    ensures
        forall|i: int| 0 <= i < components(p).len() ==> (#[trigger] components(p)[i] matches Comp::Normal(n) ==> good_name(n)),
{
    lemma_split_pieces(p);
    let pieces = split(p, '/');
    lemma_pieces_comps(pieces, false);
    lemma_pieces_comps(pieces, true);
    if is_absolute(p) {
        let c = comps_of_pieces(pieces, false);
        assert forall|i: int| 0 <= i < components(p).len() implies (#[trigger] components(p)[i] matches Comp::Normal(n) ==> good_name(n)) by {
            if i > 0 {
                assert(components(p)[i] == c[i - 1]);
            }
        }
    }
}

/// Normalisation keeps only good names.
proof fn lemma_fold_good(cs: Seq<Comp>)
    requires
        forall|i: int| 0 <= i < cs.len() ==> (#[trigger] cs[i] matches Comp::Normal(n) ==> good_name(n)),
    ensures
        norm_fold(cs) matches NormState::Going { kept, .. } ==> all_good(kept),
    decreases cs.len(),
{
    if cs.len() > 0 {
        lemma_fold_good(cs.drop_last());
        let st = norm_fold(cs.drop_last());
        assert(cs.last() == cs[cs.len() - 1]);
        match st {
            NormState::Going { kept, leading, saw_normal } => {
                match cs.last() {
                    Comp::Parent => {
                        if saw_normal && kept.len() > 0 {
                            assert forall|i: int| 0 <= i < kept.drop_last().len() implies good_name(#[trigger] kept.drop_last()[i]) by {
                                assert(kept.drop_last()[i] == kept[i]);
                            }
                        }
                    },
                    Comp::Normal(name) => {
                        if leading == 0 {
                            assert forall|i: int| 0 <= i < kept.push(name).len() implies good_name(#[trigger] kept.push(name)[i]) by {
                                if i < kept.len() {
                                    assert(kept.push(name)[i] == kept[i]);
                                }
                            }
                        }
                    },
                    _ => {},
                }
            },
            NormState::Rejected => {},
        }
    }
}

/// Splitting text with no separator onto the end of `x` extends the last piece.
proof fn lemma_split_append(x: Seq<char>, y: Seq<char>)
    requires
        !y.contains('/'),
    ensures
        split(x + y, '/') == split(x, '/').update(split(x, '/').len() - 1, split(x, '/').last() + y),
    decreases y.len(),
{
    lemma_split_pieces(x);
    if y.len() == 0 {
        assert(x + y =~= x);
        assert(split(x, '/').last() + y =~= split(x, '/').last());
        assert(split(x, '/').update(split(x, '/').len() - 1, split(x, '/').last()) =~= split(x, '/'));
    } else {
        let y0 = y.drop_last();
        assert(!y0.contains('/')) by {
            if y0.contains('/') {
                let j = choose|j: int| 0 <= j < y0.len() && y0[j] == '/';
                assert(y[j] == '/');
            }
        }
        lemma_split_append(x, y0);
        assert((x + y).drop_last() =~= x + y0);
        assert((x + y).last() == y.last());
        assert(y.last() != '/') by {
            assert(y[y.len() - 1] == y.last());
        }
        let p = split(x, '/');
        let q = split(x + y0, '/');
        assert(q.len() == p.len());
        assert(q.last() == p.last() + y0);
        assert(split(x + y, '/') == q.update(q.len() - 1, q.last().push(y.last())));
        assert((p.last() + y0).push(y.last()) =~= p.last() + y);
        assert(q.update(q.len() - 1, q.last().push(y.last())) =~= p.update(p.len() - 1, p.last() + y));
    }
}

/// Good names joined with `/` split back into the same names.
proof fn lemma_split_join(ns: Seq<Seq<char>>)
    requires
        ns.len() >= 1,
        all_good(ns),
    ensures
        split(join(ns, seq!['/']), '/') == ns,
    decreases ns.len(),
{
    if ns.len() == 1 {
        assert(join(ns, seq!['/']) == ns[0]);
        assert(good_name(ns[0]));
        lemma_split_append(Seq::<char>::empty(), ns[0]);
        assert(Seq::<char>::empty() + ns[0] =~= ns[0]);
        assert(split(Seq::<char>::empty(), '/') == seq![Seq::<char>::empty()]);
        assert(seq![Seq::<char>::empty()].update(0, Seq::<char>::empty() + ns[0]) =~= ns);
    } else {
        let init = ns.drop_last();
        assert forall|i: int| 0 <= i < init.len() implies good_name(#[trigger] init[i]) by {
            assert(init[i] == ns[i]);
        }
        lemma_split_join(init);
        let ji = join(init, seq!['/']);
        let last = ns.last();
        assert(good_name(ns[ns.len() - 1]));
        let with_sep = ji + seq!['/'];
        assert(with_sep.drop_last() =~= ji);
        assert(split(with_sep, '/') == init.push(Seq::<char>::empty()));
        lemma_split_append(with_sep, last);
        assert(join(ns, seq!['/']) == ji + seq!['/'] + last);
        assert(init.push(Seq::<char>::empty()).update(init.len() as int, Seq::<char>::empty() + last) =~= ns);
    }
}

/// The components of good pieces, the first taken as relative, are their normal names.
proof fn lemma_comps_of_good(ns: Seq<Seq<char>>)
    requires
        all_good(ns),
    ensures
        comps_of_pieces(ns, true) == ns.map_values(|n: Seq<char>| Comp::Normal(n)),
    decreases ns.len(),
{
    if ns.len() > 0 {
        let init = ns.drop_last();
        assert forall|i: int| 0 <= i < init.len() implies good_name(#[trigger] init[i]) by {
            assert(init[i] == ns[i]);
        }
        lemma_comps_of_good(init);
        assert(good_name(ns[ns.len() - 1]));
        assert(ns.map_values(|n: Seq<char>| Comp::Normal(n)) =~= init.map_values(|n: Seq<char>| Comp::Normal(n)).push(
            Comp::Normal(ns.last()),
        ));
    } else {
        assert(ns.map_values(|n: Seq<char>| Comp::Normal(n)) =~= Seq::<Comp>::empty());
    }
}

/// Normal components are all kept, in order.
proof fn lemma_fold_normals(ns: Seq<Seq<char>>)
    ensures
        norm_fold(ns.map_values(|n: Seq<char>| Comp::Normal(n))) == (NormState::Going {
            kept: ns,
            leading: 0,
            saw_normal: ns.len() > 0,
        }),
    decreases ns.len(),
{
    let cs = ns.map_values(|n: Seq<char>| Comp::Normal(n));
    if ns.len() > 0 {
        lemma_fold_normals(ns.drop_last());
        assert(cs.drop_last() =~= ns.drop_last().map_values(|n: Seq<char>| Comp::Normal(n)));
        assert(ns.drop_last().push(ns.last()) =~= ns);
    } else {
        assert(ns =~= Seq::<Seq<char>>::empty());
    }
}

/// The first character of good names joined with `/` is not `/`.
proof fn lemma_join_relative(ns: Seq<Seq<char>>)
    requires
        ns.len() >= 1,
        all_good(ns),
    ensures
        join(ns, seq!['/']).len() > 0,
        join(ns, seq!['/'])[0] == ns[0][0],
    decreases ns.len(),
{
    assert(good_name(ns[0]));
    if ns.len() > 1 {
        let init = ns.drop_last();
        assert forall|i: int| 0 <= i < init.len() implies good_name(#[trigger] init[i]) by {
            assert(init[i] == ns[i]);
        }
        lemma_join_relative(init);
    }
}

/// Normalising a normal form gives it back: `normalize_path` is idempotent.
pub proof fn lemma_normalize_idempotent(p: Seq<char>)
    ensures
        normalized(p) matches Some(n) ==> normalized(n) == Some(n),
{
    if let Some(n) = normalized(p) {
        lemma_components_good(p);
        lemma_fold_good(components(p));
        let kept = norm_fold(components(p))->Going_kept;
        assert(n == join(kept, seq!['/']));
        lemma_split_join(kept);
        lemma_join_relative(kept);
        assert(!kept[0].contains('/'));
        assert(kept[0][0] != '/') by {
            if kept[0][0] == '/' {
                assert(kept[0].contains('/'));
            }
        }
        assert(!is_absolute(n));
        lemma_comps_of_good(kept);
        lemma_fold_normals(kept);
    }
}

/// A normal form never leaves its starting directory: it is relative and
/// each of its components is a plain name (no `.` and no `..`).
pub proof fn lemma_normal_form_stays_inside(p: Seq<char>)
    ensures
        normalized(p) matches Some(n) ==> !is_absolute(n) && forall|i: int|
            0 <= i < components(n).len() ==> (#[trigger] components(n)[i]) is Normal,
{
    if let Some(n) = normalized(p) {
        lemma_components_good(p);
        lemma_fold_good(components(p));
        let kept = norm_fold(components(p))->Going_kept;
        assert(n == join(kept, seq!['/']));
        lemma_split_join(kept);
        lemma_join_relative(kept);
        assert(!kept[0].contains('/'));
        assert(kept[0][0] != '/') by {
            if kept[0][0] == '/' {
                assert(kept[0].contains('/'));
            }
        }
        assert(!is_absolute(n));
        lemma_comps_of_good(kept);
        assert(components(n) == kept.map_values(|x: Seq<char>| Comp::Normal(x)));
    }
}

/// A path is safe exactly when it is non-empty and has a normal form.
pub proof fn lemma_safe_iff_normal(p: Seq<char>)
    ensures
        safe_relative(p) <==> (p.len() > 0 && normalized(p) is Some),
{
}

} // verus!
