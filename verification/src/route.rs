//! Route patterns: parsing a path template into literal, parameter and
//! wildcard segments, matching a request path against a pattern, and the
//! precedence order between patterns (literal > parameter > wildcard,
//! segment by segment, left to right).

use vstd::prelude::*;
use crate::strutil::{
    alist_view, first_slash, join_segments, join_slash, split_path, split_slash, str_eq,
};

verus! {

/// An HTTP method, as far as the kernel distinguishes them.
#[derive(Clone, Copy, PartialEq, Eq, Structural, Debug)]
pub enum Method {
    Get,
    Post,
    Put,
    Delete,
}

/// One segment of a route pattern.
#[derive(Debug)]
pub enum Segment {
    Literal(String),
    Param(String),
    Wildcard(String),
}

/// The mathematical model of a segment.
pub enum SegModel {
    Literal { text: Seq<char> },
    Param { name: Seq<char> },
    Wildcard { name: Seq<char> },
}

impl View for Segment {
    type V = SegModel;

    open spec fn view(&self) -> SegModel {
        match self {
            Segment::Literal(s) => SegModel::Literal { text: s@ },
            Segment::Param(s) => SegModel::Param { name: s@ },
            Segment::Wildcard(s) => SegModel::Wildcard { name: s@ },
        }
    }
}

/// View of a segment vector as a sequence of segment models.
pub open spec fn seg_views(v: Seq<Segment>) -> Seq<SegModel> {
    Seq::new(v.len(), |i: int| v[i]@)
}

/// A parsed path template: an ordered sequence of segments.
#[derive(Debug)]
pub struct RoutePattern {
    pub segs: Vec<Segment>,
}

impl View for RoutePattern {
    type V = Seq<SegModel>;

    open spec fn view(&self) -> Seq<SegModel> {
        seg_views(self.segs@)
    }
}

/// Well-formed pattern: nonempty, and a wildcard only as the final segment.
pub open spec fn pattern_wf(ps: Seq<SegModel>) -> bool {
    &&& ps.len() >= 1
    &&& forall|i: int| 0 <= i < ps.len() - 1 ==> !(#[trigger] ps[i] is Wildcard)
}

/// The segment a path-template piece denotes: `{*name}` a wildcard,
/// `{name}` a parameter, anything else a literal.
pub open spec fn seg_of(p: Seq<char>) -> SegModel {
    if p.len() >= 3 && p[0] == '{' && p[p.len() - 1] == '}' && p[1] == '*' {
        SegModel::Wildcard { name: p.subrange(2, p.len() - 1) }
    } else if p.len() >= 2 && p[0] == '{' && p[p.len() - 1] == '}' {
        SegModel::Param { name: p.subrange(1, p.len() - 1) }
    } else {
        SegModel::Literal { text: p }
    }
}

/// The pattern a path-template string denotes.
pub open spec fn pattern_of(s: Seq<char>) -> Seq<SegModel> {
    Seq::new(split_slash(s).len(), |i: int| seg_of(split_slash(s)[i]))
}

/// A valid template string starts with `/` and puts a wildcard only last.
pub open spec fn valid_pattern_str(s: Seq<char>) -> bool {
    &&& s.len() > 0
    &&& s[0] == '/'
    &&& pattern_wf(pattern_of(s))
}

/// Errors raised while a route table is being configured.
#[derive(Clone, Copy, PartialEq, Eq, Structural, Debug)]
pub enum RouteError {
    /// The path template is malformed (no leading `/`, or a wildcard that
    /// is not the final segment).
    BadPattern,
    /// A structurally identical (method, pattern) pair is already
    /// registered.
    DuplicateRoute,
}

fn classify_piece(p: &String) -> (r: Segment)
    ensures
        r@ == seg_of(p@),
{
    let n = p.as_str().unicode_len();
    if n >= 3 && p.as_str().get_char(0) == '{' && p.as_str().get_char(n - 1) == '}'
        && p.as_str().get_char(1) == '*' {
        let name = p.as_str().substring_char(2, n - 1).to_owned();
        proof {
            assert(name@ =~= p@.subrange(2, p@.len() - 1));
        }
        Segment::Wildcard(name)
    } else if n >= 2 && p.as_str().get_char(0) == '{' && p.as_str().get_char(n - 1) == '}' {
        let name = p.as_str().substring_char(1, n - 1).to_owned();
        proof {
            assert(name@ =~= p@.subrange(1, p@.len() - 1));
        }
        Segment::Param(name)
    } else {
        Segment::Literal(p.clone())
    }
}

/// Parse a path template such as `/users/{id}` or `/files/{*rest}` into a
/// pattern. Returns `BadPattern` exactly when the template does not start
/// with `/` or puts a wildcard before the final segment.
pub fn parse_pattern(s: &str) -> (r: Result<RoutePattern, RouteError>)
    ensures
        match r {
            Ok(p) => valid_pattern_str(s@) && p@ =~= pattern_of(s@),
            Err(e) => e == RouteError::BadPattern && !valid_pattern_str(s@),
        },
{
    let n = s.unicode_len();
    if n == 0 {
        return Err(RouteError::BadPattern);
    }
    if s.get_char(0) != '/' {
        return Err(RouteError::BadPattern);
    }
    let pieces = split_path(s);
    let m = pieces.len();
    let mut segs: Vec<Segment> = Vec::new();
    let mut i: usize = 0;
    while i < m
        invariant
            m == pieces.len(),
            pieces.deep_view() =~= split_slash(s@),
            0 <= i <= m,
            segs@.len() == i,
            forall|j: int| 0 <= j < i ==> seg_views(segs@)[j] == pattern_of(s@)[j],
            forall|j: int| 0 <= j < i && j < m - 1 ==> !(#[trigger] pattern_of(s@)[j] is Wildcard),
        decreases m - i,
    {
        let seg = classify_piece(&pieces[i]);
        let is_wild = match seg {
            Segment::Wildcard(_) => true,
            _ => false,
        };
        if is_wild && i + 1 < m {
            proof {
                assert(pieces.deep_view()[i as int] == pieces@[i as int]@);
                assert(seg@ == seg_of(split_slash(s@)[i as int]));
                assert(pattern_of(s@)[i as int] is Wildcard);
                assert(pattern_of(s@).len() == m);
                assert(!pattern_wf(pattern_of(s@)));
            }
            return Err(RouteError::BadPattern);
        }
        segs.push(seg);
        i = i + 1;
    }
    let p = RoutePattern { segs };
    proof {
        assert(p@ =~= pattern_of(s@));
    }
    Ok(p)
}

/// Whether a pattern matches a sequence of path segments: a literal must
/// equal the segment, a parameter matches any one segment, and a trailing
/// wildcard matches all remaining segments, even none.
pub open spec fn pat_matches(ps: Seq<SegModel>, ss: Seq<Seq<char>>) -> bool
    decreases ps.len(),
{
    if ps.len() == 0 {
        ss.len() == 0
    } else {
        match ps[0] {
            SegModel::Literal { text } => ss.len() > 0 && text == ss[0] && pat_matches(
                ps.drop_first(),
                ss.drop_first(),
            ),
            SegModel::Param { .. } => ss.len() > 0 && pat_matches(
                ps.drop_first(),
                ss.drop_first(),
            ),
            SegModel::Wildcard { .. } => true,
        }
    }
}

/// The parameters a match extracts: each parameter name paired with the
/// path segment it matched, in pattern order, as strings, unmodified.
pub open spec fn pat_params(ps: Seq<SegModel>, ss: Seq<Seq<char>>) -> Seq<(Seq<char>, Seq<char>)>
    decreases ps.len(),
{
    if ps.len() == 0 {
        Seq::empty()
    } else {
        match ps[0] {
            SegModel::Literal { .. } => pat_params(ps.drop_first(), ss.drop_first()),
            SegModel::Param { name } => seq![(name, ss[0])] + pat_params(
                ps.drop_first(),
                ss.drop_first(),
            ),
            SegModel::Wildcard { .. } => Seq::empty(),
        }
    }
}

/// The wildcard remainder a match captures: the remaining path segments
/// joined back with `/`, or `None` for a pattern without a wildcard.
pub open spec fn pat_wild(ps: Seq<SegModel>, ss: Seq<Seq<char>>) -> Option<Seq<char>>
    decreases ps.len(),
{
    if ps.len() == 0 {
        None
    } else {
        match ps[0] {
            SegModel::Wildcard { .. } => Some(join_slash(ss)),
            _ => pat_wild(ps.drop_first(), ss.drop_first()),
        }
    }
}

/// A literal-only pattern captures nothing: resolving a path against it
/// extracts no parameters and no wildcard remainder.
pub proof fn lemma_literal_only_captures_nothing(ps: Seq<SegModel>, ss: Seq<Seq<char>>)
    requires
        forall|i: int| 0 <= i < ps.len() ==> (#[trigger] ps[i]) is Literal,
    ensures
        pat_params(ps, ss) =~= Seq::<(Seq<char>, Seq<char>)>::empty(),
        pat_wild(ps, ss) is None,
    decreases ps.len(),
{
    if ps.len() > 0 {
        assert(ps[0] is Literal);
        assert forall|i: int| 0 <= i < ps.drop_first().len() implies (#[trigger] ps.drop_first()[i])
            is Literal by {
            assert(ps.drop_first()[i] == ps[i + 1]);
        }
        lemma_literal_only_captures_nothing(ps.drop_first(), ss.drop_first());
    }
}

/// A named-parameter segment of a matching pattern captures exactly the
/// request segment standing at its position, as a string, unmodified.
pub proof fn lemma_param_captures_segment(ps: Seq<SegModel>, ss: Seq<Seq<char>>, i: int)
    requires
        pattern_wf(ps),
        pat_matches(ps, ss),
        0 <= i < ps.len(),
        ps[i] is Param,
    ensures
        0 <= i < ss.len(),
        pat_params(ps, ss).contains((ps[i]->Param_name, ss[i])),
    decreases ps.len(),
{
    if i == 0 {
        assert(pat_params(ps, ss)[0] == (ps[0]->Param_name, ss[0]));
    } else {
        assert(!(ps[0] is Wildcard));
        let ps2 = ps.drop_first();
        let ss2 = ss.drop_first();
        assert(pattern_wf(ps2)) by {
            assert forall|j: int| 0 <= j < ps2.len() - 1 implies !(#[trigger] ps2[j]
                is Wildcard) by {
                assert(ps2[j] == ps[j + 1]);
            }
        }
        assert(ps2[i - 1] == ps[i]);
        lemma_param_captures_segment(ps2, ss2, i - 1);
        let p = (ps[i]->Param_name, ss[i]);
        assert(ss2[i - 1] == ss[i]);
        let tail = pat_params(ps2, ss2);
        let j = choose|j: int| 0 <= j < tail.len() && tail[j] == p;
        match ps[0] {
            SegModel::Literal { .. } => {
                assert(pat_params(ps, ss) == tail);
            },
            SegModel::Param { name } => {
                assert(pat_params(ps, ss)[j + 1] == p);
            },
            SegModel::Wildcard { .. } => {},
        }
    }
}

/// Rank of a segment kind under precedence: literal above parameter above
/// wildcard.
pub open spec fn seg_rank(s: SegModel) -> int {
    match s {
        SegModel::Literal { .. } => 2,
        SegModel::Param { .. } => 1,
        SegModel::Wildcard { .. } => 0,
    }
}

/// Precedence comparison of two patterns: segment kinds are compared left
/// to right; the first position where the kinds differ decides; a pattern
/// that ends outranks one that goes on (its continuation can only be a
/// wildcard covering the same request). Returns 1 when `a` outranks `b`,
/// -1 when `b` outranks `a`, 0 on a tie.
pub open spec fn prec_cmp(a: Seq<SegModel>, b: Seq<SegModel>) -> int
    decreases a.len() + b.len(),
{
    if a.len() == 0 && b.len() == 0 {
        0
    } else if a.len() == 0 {
        1
    } else if b.len() == 0 {
        -1
    } else if seg_rank(a[0]) > seg_rank(b[0]) {
        1
    } else if seg_rank(a[0]) < seg_rank(b[0]) {
        -1
    } else {
        prec_cmp(a.drop_first(), b.drop_first())
    }
}

proof fn lemma_prec_cmp_range(a: Seq<SegModel>, b: Seq<SegModel>)
    ensures
        -1 <= prec_cmp(a, b) <= 1,
    decreases a.len() + b.len(),
{
    if a.len() > 0 && b.len() > 0 && seg_rank(a[0]) == seg_rank(b[0]) {
        lemma_prec_cmp_range(a.drop_first(), b.drop_first());
    }
}

pub proof fn lemma_prec_cmp_refl(a: Seq<SegModel>)
    ensures
        prec_cmp(a, a) == 0,
    decreases a.len(),
{
    if a.len() > 0 {
        lemma_prec_cmp_refl(a.drop_first());
    }
}

pub proof fn lemma_prec_cmp_antisym(a: Seq<SegModel>, b: Seq<SegModel>)
    ensures
        prec_cmp(a, b) == -prec_cmp(b, a),
    decreases a.len() + b.len(),
{
    if a.len() > 0 && b.len() > 0 && seg_rank(a[0]) == seg_rank(b[0]) {
        lemma_prec_cmp_antisym(a.drop_first(), b.drop_first());
    }
}

/// The precedence order is transitive, and a tie at the ends forces ties
/// along the way.
pub proof fn lemma_prec_cmp_trans(a: Seq<SegModel>, b: Seq<SegModel>, c: Seq<SegModel>)
    requires
        prec_cmp(a, b) >= 0,
        prec_cmp(b, c) >= 0,
    ensures
        prec_cmp(a, c) >= 0,
        prec_cmp(a, c) == 0 ==> prec_cmp(a, b) == 0 && prec_cmp(b, c) == 0,
    decreases a.len() + b.len() + c.len(),
{
    lemma_prec_cmp_range(a, b);
    lemma_prec_cmp_range(b, c);
    lemma_prec_cmp_range(a, c);
    if a.len() > 0 && b.len() > 0 && c.len() > 0 && seg_rank(a[0]) == seg_rank(b[0]) && seg_rank(
        b[0],
    ) == seg_rank(c[0]) {
        lemma_prec_cmp_trans(a.drop_first(), b.drop_first(), c.drop_first());
    }
}

/// Route precedence: when a literal-only pattern and a pattern that
/// somewhere holds a parameter or wildcard both match the same request,
/// the literal one strictly outranks the other — the more specific
/// registered route always wins.
pub proof fn lemma_literal_route_wins(a: Seq<SegModel>, b: Seq<SegModel>, ss: Seq<Seq<char>>)
    requires
        forall|i: int| 0 <= i < a.len() ==> (#[trigger] a[i]) is Literal,
        exists|i: int| 0 <= i < b.len() && !((#[trigger] b[i]) is Literal),
        pat_matches(a, ss),
        pat_matches(b, ss),
    ensures
        prec_cmp(a, b) == 1,
    decreases a.len(),
{
    let i0 = choose|i: int| 0 <= i < b.len() && !((#[trigger] b[i]) is Literal);
    if a.len() == 0 {
        assert(ss.len() == 0);
        assert(b.len() > 0) by {
            assert(0 <= i0 < b.len());
        }
    } else {
        assert(a[0] is Literal);
        assert(ss.len() > 0);
        assert(b.len() > 0);
        if b[0] is Literal {
            assert(seg_rank(a[0]) == seg_rank(b[0]));
            assert forall|i: int| 0 <= i < a.drop_first().len() implies (#[trigger] a.drop_first()[i])
                is Literal by {
                assert(a.drop_first()[i] == a[i + 1]);
            }
            assert(i0 >= 1);
            assert(b.drop_first()[i0 - 1] == b[i0]);
            lemma_literal_route_wins(a.drop_first(), b.drop_first(), ss.drop_first());
        } else {
            assert(seg_rank(a[0]) == 2 && seg_rank(b[0]) < 2);
        }
    }
}

fn seg_rank_exec(s: &Segment) -> (r: u32)
    ensures
        r as int == seg_rank(s@),
{
    match s {
        Segment::Literal(_) => 2,
        Segment::Param(_) => 1,
        Segment::Wildcard(_) => 0,
    }
}

fn prec_cmp_from(a: &Vec<Segment>, b: &Vec<Segment>, ai: usize, bi: usize) -> (r: i32)
    requires
        ai <= a.len(),
        bi <= b.len(),
    ensures
        r as int == prec_cmp(seg_views(a@).skip(ai as int), seg_views(b@).skip(bi as int)),
    decreases a.len() - ai + b.len() - bi,
{
    proof {
        let av = seg_views(a@).skip(ai as int);
        let bv = seg_views(b@).skip(bi as int);
        if ai < a.len() {
            assert(av[0] == a@[ai as int]@);
            assert(av.drop_first() =~= seg_views(a@).skip(ai as int + 1));
        }
        if bi < b.len() {
            assert(bv[0] == b@[bi as int]@);
            assert(bv.drop_first() =~= seg_views(b@).skip(bi as int + 1));
        }
        assert(av.len() == a@.len() - ai);
        assert(bv.len() == b@.len() - bi);
    }
    if ai == a.len() && bi == b.len() {
        0
    } else if ai == a.len() {
        1
    } else if bi == b.len() {
        -1
    } else {
        let ra = seg_rank_exec(&a[ai]);
        let rb = seg_rank_exec(&b[bi]);
        if ra > rb {
            1
        } else if ra < rb {
            -1
        } else {
            prec_cmp_from(a, b, ai + 1, bi + 1)
        }
    }
}

/// Exec precedence comparison of two patterns, mirroring `prec_cmp`.
pub fn pattern_cmp(a: &RoutePattern, b: &RoutePattern) -> (r: i32)
    ensures
        r as int == prec_cmp(a@, b@),
{
    proof {
        assert(seg_views(a.segs@).skip(0) =~= a@);
        assert(seg_views(b.segs@).skip(0) =~= b@);
    }
    prec_cmp_from(&a.segs, &b.segs, 0, 0)
}

/// The bindings a successful match produces.
pub struct Bindings {
    /// Parameter name, segment value pairs, in pattern order.
    pub params: Vec<(String, String)>,
    /// The wildcard remainder, when the pattern ends in a wildcard.
    pub wildcard: Option<String>,
}

fn match_from(pat: &Vec<Segment>, segs: &Vec<String>, pi: usize, si: usize) -> (r: Option<
    Bindings,
>)
    requires
        pi <= pat.len(),
        si <= segs.len(),
    ensures
        match r {
            Some(b) => {
                &&& pat_matches(seg_views(pat@).skip(pi as int), segs.deep_view().skip(si as int))
                &&& alist_view(b.params@) =~= pat_params(
                    seg_views(pat@).skip(pi as int),
                    segs.deep_view().skip(si as int),
                )
                &&& match b.wildcard {
                    Some(w) => pat_wild(
                        seg_views(pat@).skip(pi as int),
                        segs.deep_view().skip(si as int),
                    ) == Some(w@),
                    None => pat_wild(
                        seg_views(pat@).skip(pi as int),
                        segs.deep_view().skip(si as int),
                    ) is None,
                }
            },
            None => !pat_matches(seg_views(pat@).skip(pi as int), segs.deep_view().skip(si as int)),
        },
    decreases pat.len() - pi,
{
    proof {
        let pv = seg_views(pat@).skip(pi as int);
        let sv = segs.deep_view().skip(si as int);
        if pi < pat.len() {
            assert(pv[0] == pat@[pi as int]@);
            assert(pv.drop_first() =~= seg_views(pat@).skip(pi as int + 1));
        }
        if si < segs.len() {
            assert(sv[0] == segs@[si as int]@);
            assert(sv.drop_first() =~= segs.deep_view().skip(si as int + 1));
        }
        assert(pv.len() == pat@.len() - pi);
        assert(sv.len() == segs@.len() - si);
    }
    if pi == pat.len() {
        if si == segs.len() {
            Some(Bindings { params: Vec::new(), wildcard: None })
        } else {
            None
        }
    } else {
        match &pat[pi] {
            Segment::Literal(t) => {
                if si < segs.len() && str_eq(t.as_str(), segs[si].as_str()) {
                    match_from(pat, segs, pi + 1, si + 1)
                } else {
                    None
                }
            },
            Segment::Param(name) => {
                if si < segs.len() {
                    match match_from(pat, segs, pi + 1, si + 1) {
                        Some(mut b) => {
                            b.params.insert(0, (name.clone(), segs[si].clone()));
                            proof {
                                assert(alist_view(b.params@) =~= seq![
                                    (name@, segs@[si as int]@),
                                ] + pat_params(
                                    seg_views(pat@).skip(pi as int + 1),
                                    segs.deep_view().skip(si as int + 1),
                                ));
                            }
                            Some(b)
                        },
                        None => None,
                    }
                } else {
                    None
                }
            },
            Segment::Wildcard(_) => {
                let rem = join_segments(segs, si);
                Some(Bindings { params: Vec::new(), wildcard: Some(rem) })
            },
        }
    }
}

/// Exec match of a pattern against path segments, mirroring
/// `pat_matches`, `pat_params` and `pat_wild`.
pub fn match_pattern(pat: &RoutePattern, segs: &Vec<String>) -> (r: Option<Bindings>)
    ensures
        match r {
            Some(b) => {
                &&& pat_matches(pat@, segs.deep_view())
                &&& alist_view(b.params@) =~= pat_params(pat@, segs.deep_view())
                &&& match b.wildcard {
                    Some(w) => pat_wild(pat@, segs.deep_view()) == Some(w@),
                    None => pat_wild(pat@, segs.deep_view()) is None,
                }
            },
            None => !pat_matches(pat@, segs.deep_view()),
        },
{
    proof {
        assert(seg_views(pat.segs@).skip(0) =~= pat@);
        assert(segs.deep_view().skip(0) =~= segs.deep_view());
    }
    match_from(&pat.segs, segs, 0, 0)
}

} // verus!
