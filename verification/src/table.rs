//! The route table: method + pattern bindings to a handler and its
//! middleware list, duplicate-rejecting registration, nesting under a
//! prefix, merging, and best-match resolution with literal > parameter >
//! wildcard precedence.

use vstd::prelude::*;
use crate::route::{
    lemma_prec_cmp_antisym, lemma_prec_cmp_refl, lemma_prec_cmp_trans, match_pattern, pat_matches, pat_params, pat_wild,
    pattern_cmp, pattern_wf, prec_cmp, Bindings, Method, RouteError, RoutePattern, SegModel,
    Segment,
};
use crate::strutil::{alist_view, split_path, split_slash, str_eq};

verus! {

/// The terminal handler a route dispatches to.
#[derive(Clone, Copy, PartialEq, Eq, Structural, Debug)]
pub enum Handler {
    HelloWorld,
    CallWithId,
    QueryParams,
    ParseJson,
    ParseHeaders,
    StatusCode,
    GetCounter,
    PutCounter,
    DeleteCounter,
    IncreaseCounter,
    Hello,
    WildcardEcho,
    Profile,
    About,
    NestedShared,
    Signup,
    Signin,
    Protected,
}

/// A middleware layer of the chain.
#[derive(Clone, Copy, PartialEq, Eq, Structural, Debug)]
pub enum Mw {
    /// Wraps every route; forwards the request unchanged.
    Global,
    /// Short-circuits when the `id` path parameter is not a decimal `u32`.
    NumericId,
    /// Injects a fixed identity into the request extensions.
    InjectIdentity,
    /// Requires a valid bearer token and injects its subject.
    LoginRequired,
}

/// One registered route.
pub struct RouteEntry {
    pub method: Method,
    pub pattern: RoutePattern,
    pub handler: Handler,
    pub middlewares: Vec<Mw>,
}

/// The mathematical model of a registered route.
pub struct EntryModel {
    pub method: Method,
    pub pattern: Seq<SegModel>,
    pub handler: Handler,
    pub middlewares: Seq<Mw>,
}

impl View for RouteEntry {
    type V = EntryModel;

    open spec fn view(&self) -> EntryModel {
        EntryModel {
            method: self.method,
            pattern: self.pattern@,
            handler: self.handler,
            middlewares: self.middlewares@,
        }
    }
}

/// Holds the method + pattern bindings; immutable once configured.
pub struct RouteTable {
    pub entries: Vec<RouteEntry>,
}

impl View for RouteTable {
    type V = Seq<EntryModel>;

    open spec fn view(&self) -> Seq<EntryModel> {
        Seq::new(self.entries@.len(), |i: int| self.entries@[i]@)
    }
}

/// Structural identity of two segments: same kind, and for literals the
/// same text; parameter and wildcard names do not distinguish patterns.
pub open spec fn seg_same(a: SegModel, b: SegModel) -> bool {
    match (a, b) {
        (SegModel::Literal { text: x }, SegModel::Literal { text: y }) => x == y,
        (SegModel::Param { .. }, SegModel::Param { .. }) => true,
        (SegModel::Wildcard { .. }, SegModel::Wildcard { .. }) => true,
        _ => false,
    }
}

/// Structural identity of two patterns.
pub open spec fn pat_same(a: Seq<SegModel>, b: Seq<SegModel>) -> bool {
    a.len() == b.len() && forall|i: int| 0 <= i < a.len() ==> seg_same(#[trigger] a[i], b[i])
}

/// Whether the table already holds a route structurally identical to
/// (method, pattern).
pub open spec fn has_dup(t: Seq<EntryModel>, method: Method, p: Seq<SegModel>) -> bool {
    exists|j: int|
        0 <= j < t.len() && (#[trigger] t[j]).method == method && pat_same(t[j].pattern, p)
}

/// Table invariant: every pattern well formed, no structurally identical
/// (method, pattern) pair registered twice.
pub open spec fn table_wf(t: Seq<EntryModel>) -> bool {
    &&& forall|i: int| 0 <= i < t.len() ==> pattern_wf((#[trigger] t[i]).pattern)
    &&& forall|i: int, j: int|
        0 <= i < j < t.len() && (#[trigger] t[i]).method == (#[trigger] t[j]).method ==> !pat_same(
            t[i].pattern,
            t[j].pattern,
        )
}

fn seg_same_exec(a: &Segment, b: &Segment) -> (r: bool)
    ensures
        r == seg_same(a@, b@),
{
    match (a, b) {
        (Segment::Literal(x), Segment::Literal(y)) => str_eq(x.as_str(), y.as_str()),
        (Segment::Param(_), Segment::Param(_)) => true,
        (Segment::Wildcard(_), Segment::Wildcard(_)) => true,
        _ => false,
    }
}

/// Exec structural identity of patterns, mirroring `pat_same`.
pub fn pattern_same(a: &RoutePattern, b: &RoutePattern) -> (r: bool)
    ensures
        r == pat_same(a@, b@),
{
    let n = a.segs.len();
    if n != b.segs.len() {
        return false;
    }
    let mut i: usize = 0;
    while i < n
        invariant
            n == a.segs.len(),
            n == b.segs.len(),
            0 <= i <= n,
            forall|j: int| 0 <= j < i ==> seg_same(#[trigger] a@[j], b@[j]),
        decreases n - i,
    {
        if !seg_same_exec(&a.segs[i], &b.segs[i]) {
            assert(a@[i as int] == a.segs@[i as int]@);
            assert(!seg_same(a@[i as int], b@[i as int]));
            return false;
        }
        i = i + 1;
    }
    true
}

/// A pattern with no wildcard segment anywhere; fit to stand as a mount
/// prefix.
pub open spec fn no_wildcard(ps: Seq<SegModel>) -> bool {
    forall|i: int| 0 <= i < ps.len() ==> !(#[trigger] ps[i] is Wildcard)
}

/// A pattern that starts with the empty literal, as every pattern parsed
/// from a `/`-leading template does.
pub open spec fn leading_empty(ps: Seq<SegModel>) -> bool {
    ps.len() >= 1 && ps[0] == (SegModel::Literal { text: Seq::<char>::empty() })
}

/// The entry of a sub-table as it stands once mounted under `prefix`: the
/// prefix segments followed by the entry's own, its leading empty literal
/// dropped.
pub open spec fn prefixed_entry(prefix: Seq<SegModel>, e: EntryModel) -> EntryModel {
    EntryModel {
        method: e.method,
        pattern: prefix + e.pattern.drop_first(),
        handler: e.handler,
        middlewares: e.middlewares,
    }
}

/// A whole sub-table as mounted under `prefix`.
pub open spec fn prefixed(prefix: Seq<SegModel>, t: Seq<EntryModel>) -> Seq<EntryModel> {
    Seq::new(t.len(), |i: int| prefixed_entry(prefix, t[i]))
}

/// Whether every entry of `add`, registered in order after `base`, avoids
/// a duplicate (method, pattern) collision.
pub open spec fn add_all_ok(base: Seq<EntryModel>, add: Seq<EntryModel>) -> bool {
    forall|i: int|
        0 <= i < add.len() ==> !has_dup(
            base + add.take(i),
            (#[trigger] add[i]).method,
            add[i].pattern,
        )
}

fn clone_segment(s: &Segment) -> (r: Segment)
    ensures
        r@ == s@,
{
    match s {
        Segment::Literal(x) => Segment::Literal(x.clone()),
        Segment::Param(x) => Segment::Param(x.clone()),
        Segment::Wildcard(x) => Segment::Wildcard(x.clone()),
    }
}

fn clone_segs(v: &Vec<Segment>) -> (r: Vec<Segment>)
    ensures
        r@.len() == v@.len(),
        forall|i: int| 0 <= i < v@.len() ==> r@[i]@ == v@[i]@,
{
    let mut out: Vec<Segment> = Vec::new();
    let n = v.len();
    let mut i: usize = 0;
    while i < n
        invariant
            n == v.len(),
            0 <= i <= n,
            out@.len() == i,
            forall|j: int| 0 <= j < i ==> out@[j]@ == v@[j]@,
        decreases n - i,
    {
        out.push(clone_segment(&v[i]));
        i = i + 1;
    }
    out
}

/// The result of resolving a request against the table.
pub struct MatchResult {
    /// Index of the winning route in the table.
    pub index: usize,
    /// Extracted parameter name / value pairs, in pattern order.
    pub params: Vec<(String, String)>,
    /// The wildcard remainder, when the winning pattern ends in one.
    pub wildcard: Option<String>,
}

/// Whether entry `i` of the table matches the request (method, segments).
pub open spec fn matches_at(t: Seq<EntryModel>, i: int, method: Method, ss: Seq<Seq<char>>) -> bool {
    0 <= i < t.len() && t[i].method == method && pat_matches(t[i].pattern, ss)
}

impl RouteTable {
    /// An empty table.
    pub fn new() -> (r: RouteTable)
        ensures
            r@ =~= Seq::<EntryModel>::empty(),
            table_wf(r@),
    {
        RouteTable { entries: Vec::new() }
    }

    fn find_dup(&self, method: Method, pattern: &RoutePattern) -> (r: bool)
        ensures
            r == has_dup(self@, method, pattern@),
    {
        let n = self.entries.len();
        let mut i: usize = 0;
        while i < n
            invariant
                n == self.entries.len(),
                0 <= i <= n,
                forall|j: int|
                    0 <= j < i ==> !((#[trigger] self@[j]).method == method && pat_same(
                        self@[j].pattern,
                        pattern@,
                    )),
            decreases n - i,
        {
            if self.entries[i].method == method && pattern_same(&self.entries[i].pattern, pattern) {
                assert(self@[i as int].method == method && pat_same(
                    self@[i as int].pattern,
                    pattern@,
                ));
                return true;
            }
            i = i + 1;
        }
        false
    }

    /// Bind (method, pattern) to a handler and its middleware list.
    /// Fails with `DuplicateRoute` exactly when a structurally identical
    /// (method, pattern) pair is already registered; the table is then
    /// unchanged.
    pub fn register(
        &mut self,
        method: Method,
        pattern: RoutePattern,
        handler: Handler,
        middlewares: Vec<Mw>,
    ) -> (r: Result<(), RouteError>)
        requires
            table_wf(old(self)@),
            pattern_wf(pattern@),
        ensures
            table_wf(final(self)@),
            match r {
                Ok(_) => !has_dup(old(self)@, method, pattern@) && final(self)@ =~= old(self)@
                    + seq![
                    EntryModel {
                        method,
                        pattern: pattern@,
                        handler,
                        middlewares: middlewares@,
                    },
                ],
                Err(e) => e == RouteError::DuplicateRoute && has_dup(old(self)@, method, pattern@)
                    && final(self)@ == old(self)@,
            },
    {
        if self.find_dup(method, &pattern) {
            return Err(RouteError::DuplicateRoute);
        }
        let ghost oldv = self@;
        let ghost entry = EntryModel { method, pattern: pattern@, handler, middlewares: middlewares@ };
        self.entries.push(RouteEntry { method, pattern, handler, middlewares });
        proof {
            assert(self@ =~= oldv + seq![entry]);
            assert forall|i: int, j: int|
                0 <= i < j < self@.len() && (#[trigger] self@[i]).method
                    == (#[trigger] self@[j]).method implies !pat_same(
                self@[i].pattern,
                self@[j].pattern,
            ) by {
                if j == self@.len() - 1 {
                    assert(!(oldv[i].method == entry.method && pat_same(
                        oldv[i].pattern,
                        entry.pattern,
                    )));
                }
            }
        }
        Ok(())
    }

    /// Find the best-matching route for (method, path): among all
    /// registered routes that match, the one of highest precedence, and
    /// among ties the one registered first. Returns `None` exactly when
    /// no route matches.
    pub fn resolve(&self, method: Method, path: &str) -> (r: Option<MatchResult>)
        ensures
            match r {
                Some(m) => {
                    let ss = split_slash(path@);
                    &&& matches_at(self@, m.index as int, method, ss)
                    &&& alist_view(m.params@) =~= pat_params(self@[m.index as int].pattern, ss)
                    &&& match m.wildcard {
                        Some(w) => pat_wild(self@[m.index as int].pattern, ss) == Some(w@),
                        None => pat_wild(self@[m.index as int].pattern, ss) is None,
                    }
                    &&& forall|j: int|
                        matches_at(self@, j, method, ss) ==> prec_cmp(
                            self@[m.index as int].pattern,
                            (#[trigger] self@[j]).pattern,
                        ) >= 0
                    &&& forall|j: int|
                        matches_at(self@, j, method, ss) && prec_cmp(
                            self@[m.index as int].pattern,
                            (#[trigger] self@[j]).pattern,
                        ) == 0 ==> m.index <= j
                },
                None => forall|j: int| !matches_at(self@, j, method, split_slash(path@)),
            },
    {
        let segs = split_path(path);
        let ghost ss = split_slash(path@);
        let n = self.entries.len();
        let mut found = false;
        let mut best_i: usize = 0;
        let mut best_params: Vec<(String, String)> = Vec::new();
        let mut best_wild: Option<String> = None;
        let mut i: usize = 0;
        while i < n
            invariant
                n == self.entries.len(),
                0 <= i <= n,
                segs.deep_view() =~= ss,
                !found ==> forall|j: int| 0 <= j < i ==> !matches_at(self@, j, method, ss),
                found ==> {
                    &&& best_i < i
                    &&& matches_at(self@, best_i as int, method, ss)
                    &&& alist_view(best_params@) =~= pat_params(self@[best_i as int].pattern, ss)
                    &&& match best_wild {
                        Some(w) => pat_wild(self@[best_i as int].pattern, ss) == Some(w@),
                        None => pat_wild(self@[best_i as int].pattern, ss) is None,
                    }
                    &&& forall|j: int|
                        0 <= j < i && matches_at(self@, j, method, ss) ==> prec_cmp(
                            self@[best_i as int].pattern,
                            (#[trigger] self@[j]).pattern,
                        ) >= 0
                    &&& forall|j: int|
                        0 <= j < i && matches_at(self@, j, method, ss) && prec_cmp(
                            self@[best_i as int].pattern,
                            (#[trigger] self@[j]).pattern,
                        ) == 0 ==> best_i <= j
                },
            decreases n - i,
        {
            if self.entries[i].method == method {
                if let Some(b) = match_pattern(&self.entries[i].pattern, &segs) {
                    assert(matches_at(self@, i as int, method, ss));
                    if !found {
                        proof {
                            lemma_prec_cmp_refl(self@[i as int].pattern);
                        }
                        found = true;
                        best_i = i;
                        best_params = b.params;
                        best_wild = b.wildcard;
                    } else {
                        let c = pattern_cmp(&self.entries[i].pattern, &self.entries[best_i].pattern);
                        if c > 0 {
                            proof {
                                let newp = self@[i as int].pattern;
                                let oldp = self@[best_i as int].pattern;
                                lemma_prec_cmp_antisym(newp, oldp);
                                lemma_prec_cmp_refl(newp);
                                assert forall|j: int|
                                    0 <= j < i && matches_at(self@, j, method, ss) implies prec_cmp(
                                    newp,
                                    (#[trigger] self@[j]).pattern,
                                ) > 0 by {
                                    lemma_prec_cmp_trans(newp, oldp, self@[j].pattern);
                                }
                            }
                            best_i = i;
                            best_params = b.params;
                            best_wild = b.wildcard;
                        } else {
                            proof {
                                let newp = self@[i as int].pattern;
                                let oldp = self@[best_i as int].pattern;
                                lemma_prec_cmp_antisym(oldp, newp);
                            }
                        }
                    }
                }
            }
            i = i + 1;
        }
        if found {
            Some(MatchResult { index: best_i, params: best_params, wildcard: best_wild })
        } else {
            None
        }
    }

    /// Mount a sub-table under a prefix: every entry of `sub` is
    /// registered here with `prefix` prepended to its pattern. Fails with
    /// `DuplicateRoute` exactly when some mounted entry collides with an
    /// earlier one; entries before the collision stay registered, as a
    /// configuration error is fatal at startup.
    #[verifier::loop_isolation(false)]
    pub fn nest(&mut self, prefix: RoutePattern, sub: RouteTable) -> (r: Result<(), RouteError>)
        requires
            table_wf(old(self)@),
            table_wf(sub@),
            pattern_wf(prefix@),
            no_wildcard(prefix@),
            forall|i: int| 0 <= i < sub@.len() ==> leading_empty((#[trigger] sub@[i]).pattern),
        ensures
            table_wf(final(self)@),
            match r {
                Ok(_) => add_all_ok(old(self)@, prefixed(prefix@, sub@)) && final(self)@ =~= old(
                    self,
                )@ + prefixed(prefix@, sub@),
                Err(e) => e == RouteError::DuplicateRoute && !add_all_ok(
                    old(self)@,
                    prefixed(prefix@, sub@),
                ),
            },
    {
        let ghost subv = sub@;
        let ghost added = prefixed(prefix@, subv);
        let mut rest = sub.entries;
        let ghost mut k: int = 0;
        while rest.len() > 0
            invariant
                table_wf(self@),
                pattern_wf(prefix@),
                no_wildcard(prefix@),
                forall|i: int| 0 <= i < subv.len() ==> leading_empty((#[trigger] subv[i]).pattern),
                forall|i: int| 0 <= i < subv.len() ==> pattern_wf((#[trigger] subv[i]).pattern),
                added == prefixed(prefix@, subv),
                0 <= k,
                k + rest@.len() == subv.len(),
                forall|j: int| 0 <= j < rest@.len() ==> (#[trigger] rest@[j])@ == subv[k + j],
                self@ =~= old(self)@ + added.take(k),
                forall|i: int|
                    0 <= i < k ==> !has_dup(
                        old(self)@ + added.take(i),
                        (#[trigger] added[i]).method,
                        added[i].pattern,
                    ),
            decreases rest@.len(),
        {
            let e = rest.remove(0);
            proof {
                assert(e@ == subv[k]);
            }
            let mut segs = clone_segs(&prefix.segs);
            let mut tail = e.pattern.segs;
            tail.remove(0);
            segs.append(&mut tail);
            let pat = RoutePattern { segs };
            proof {
                assert(pat@ =~= prefix@ + subv[k].pattern.drop_first());
                assert(pat@ == added[k].pattern);
                assert(e.method == added[k].method);
                assert forall|i: int| 0 <= i < pat@.len() - 1 implies !(#[trigger] pat@[i]
                    is Wildcard) by {
                    if i >= prefix@.len() {
                        let p = subv[k].pattern;
                        assert(pat@[i] == p[i - prefix@.len() + 1]);
                        assert(pattern_wf(p));
                    }
                }
                assert(pattern_wf(pat@));
            }
            let ghost before = self@;
            match self.register(e.method, pat, e.handler, e.middlewares) {
                Ok(_) => {
                    proof {
                        assert(before =~= old(self)@ + added.take(k));
                        assert(self@ =~= old(self)@ + added.take(k + 1));
                    }
                },
                Err(_) => {
                    proof {
                        assert(has_dup(before, added[k].method, added[k].pattern));
                        assert(has_dup(old(self)@ + added.take(k), added[k].method, added[k].pattern));
                        assert(0 <= k < added.len());
                        assert(!add_all_ok(old(self)@, prefixed(prefix@, subv)));
                    }
                    return Err(RouteError::DuplicateRoute);
                },
            }
            proof {
                k = k + 1;
            }
        }
        proof {
            assert(added.take(subv.len() as int) =~= added);
            assert(k == subv.len());
        }
        Ok(())
    }

    /// Union another table's entries into this one at the same mount
    /// level. Fails with `DuplicateRoute` exactly when some incoming
    /// entry collides; entries before the collision stay registered.
    pub fn merge(&mut self, other: RouteTable) -> (r: Result<(), RouteError>)
        requires
            table_wf(old(self)@),
            table_wf(other@),
            forall|i: int| 0 <= i < other@.len() ==> leading_empty((#[trigger] other@[i]).pattern),
        ensures
            table_wf(final(self)@),
            match r {
                Ok(_) => add_all_ok(old(self)@, other@) && final(self)@ =~= old(self)@ + other@,
                Err(e) => e == RouteError::DuplicateRoute && !add_all_ok(old(self)@, other@),
            },
    {
        let prefix = RoutePattern { segs: vec![Segment::Literal(String::new())] };
        proof {
            assert(prefix@ =~= seq![SegModel::Literal { text: Seq::<char>::empty() }]);
            assert forall|i: int| 0 <= i < other@.len() implies prefixed_entry(
                prefix@,
                (#[trigger] other@[i]),
            ) == other@[i] by {
                let p = other@[i].pattern;
                assert(prefix@ + p.drop_first() =~= p);
            }
            assert(prefixed(prefix@, other@) =~= other@);
        }
        self.nest(prefix, other)
    }
}

} // verus!
