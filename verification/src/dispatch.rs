//! The middleware chain and the dispatcher. A middleware layer may
//! forward the request (possibly extending its extension slots) or
//! short-circuit with a final response; layers run strictly in
//! registration order, the first registered outermost, and once one
//! short-circuits neither the remaining layers nor the handler runs, so
//! shared state is left untouched.

use vstd::prelude::*;
use crate::auth::{
    decoded_claims, is_phc_string, signin, signup, token_of, verifies, verify_token, AuthError,
    CredentialStore, TOKEN_TTL_SECONDS,
};
use crate::context::{
    envelope_model, envelope_response, text_model, text_response, BodyModel, CtxModel,
    RequestBody, RequestContext, RespBodyModel, RespModel, Response, ResponseBody,
};
use crate::counter::Counter;
use crate::route::{
    pat_params, pat_wild, pattern_wf, prec_cmp, Method, RouteError, RoutePattern, SegModel,
    Segment,
};
use crate::strutil::{
    alist_get, alist_lookup, alist_view, dec_digits, dec_value, is_u32_string, parse_u32,
    split_slash, str_eq, u32_to_string,
};
use crate::table::{
    has_dup, matches_at, pat_same, seg_same, table_wf, EntryModel, Handler, Mw, RouteTable,
};

verus! {

/// The bearer token a request presents: the Authorization header's
/// value, a `Bearer ` prefix stripped when present; `None` without the
/// header.
pub open spec fn strip_bearer(v: Seq<char>) -> Seq<char> {
    if v.len() >= 7 && v.subrange(0, 7) == "Bearer "@ {
        v.skip(7)
    } else {
        v
    }
}

pub open spec fn bearer_token(m: CtxModel) -> Option<Seq<char>> {
    match alist_get(m.headers, "Authorization"@) {
        None => None,
        Some(v) => Some(strip_bearer(v)),
    }
}

/// What one middleware layer does with a request: short-circuit with a
/// final response, or pass a (possibly extended) context on.
pub enum MwStep {
    Short { resp: RespModel },
    Next { ctx: CtxModel },
}

/// The behaviour of each middleware layer as a function of the context
/// model, the token key and the present moment.
pub open spec fn mw_spec(mw: Mw, m: CtxModel, key: Seq<u8>, now: u64) -> MwStep {
    match mw {
        Mw::Global => MwStep::Next { ctx: m },
        Mw::NumericId => match alist_get(m.params, "id"@) {
            Some(v) => if is_u32_string(v) {
                MwStep::Next { ctx: m }
            } else {
                MwStep::Short { resp: text_model(200, "Wrong input"@) }
            },
            None => MwStep::Short { resp: text_model(200, "Wrong input"@) },
        },
        Mw::InjectIdentity => MwStep::Next {
            ctx: CtxModel { extensions: m.extensions.push(("identity"@, "John Doe"@)), ..m },
        },
        Mw::LoginRequired => match bearer_token(m) {
            None => MwStep::Short { resp: text_model(401, "Missing auth token"@) },
            Some(t) => match decoded_claims(key, t) {
                None => MwStep::Short { resp: text_model(401, "Invalid token"@) },
                Some(c) => if c.1 <= now {
                    MwStep::Short { resp: text_model(401, "Token expired"@) }
                } else {
                    MwStep::Next {
                        ctx: CtxModel { extensions: m.extensions.push(("auth_user"@, c.0)), ..m },
                    }
                },
            },
        },
    }
}

/// Run one middleware layer, mirroring `mw_spec`. A short-circuit leaves
/// the context as it stood.
pub fn run_middleware(mw: Mw, ctx: &mut RequestContext, key: &[u8], now: u64) -> (r: Option<
    Response,
>)
    ensures
        match r {
            Some(resp) => mw_spec(mw, old(ctx)@, key@, now) == (MwStep::Short { resp: resp@ })
                && final(ctx)@ == old(ctx)@,
            None => mw_spec(mw, old(ctx)@, key@, now) == (MwStep::Next { ctx: final(ctx)@ }),
        },
{
    match mw {
        Mw::Global => None,
        Mw::NumericId => {
            match crate::strutil::alist_lookup(&ctx.params, "id") {
                Some(v) => {
                    match parse_u32(v.as_str()) {
                        Some(_) => None,
                        None => Some(text_response(200, "Wrong input")),
                    }
                },
                None => Some(text_response(200, "Wrong input")),
            }
        },
        Mw::InjectIdentity => {
            let ghost oldext = alist_view(ctx.extensions@);
            let name: String = "identity".to_owned();
            let value: String = "John Doe".to_owned();
            ctx.extensions.push((name, value));
            proof {
                assert(alist_view(ctx.extensions@) =~= oldext.push(("identity"@, "John Doe"@)));
            }
            None
        },
        Mw::LoginRequired => {
            match crate::strutil::alist_lookup(&ctx.headers, "Authorization") {
                None => Some(text_response(401, "Missing auth token")),
                Some(h) => {
                    let n = h.as_str().unicode_len();
                    let token: String = if n >= 7 && str_eq(
                        h.as_str().substring_char(0, 7),
                        "Bearer ",
                    ) {
                        h.as_str().substring_char(7, n).to_owned()
                    } else {
                        h
                    };
                    assert(token@ == strip_bearer(
                        alist_get(old(ctx)@.headers, "Authorization"@).unwrap(),
                    ));
                    match verify_token(key, token.as_str(), now) {
                        Ok(claims) => {
                            let ghost oldext = alist_view(ctx.extensions@);
                            let ghost subject = claims.subject@;
                            let name: String = "auth_user".to_owned();
                            ctx.extensions.push((name, claims.subject));
                            proof {
                                assert(alist_view(ctx.extensions@) =~= oldext.push(
                                    ("auth_user"@, subject),
                                ));
                            }
                            None
                        },
                        Err(e) => {
                            match e {
                                AuthError::ExpiredToken => Some(text_response(401, "Token expired")),
                                _ => Some(text_response(401, "Invalid token")),
                            }
                        },
                    }
                },
            }
        },
    }
}

/// What a whole chain does: the first short-circuiting layer's response,
/// or the context as the layers hand it to the terminal handler.
pub enum ChainOutcome {
    Short { resp: RespModel },
    Through { ctx: CtxModel },
}

/// The behaviour of a middleware chain, layers applied front to back.
pub open spec fn chain_spec(mws: Seq<Mw>, m: CtxModel, key: Seq<u8>, now: u64) -> ChainOutcome
    decreases mws.len(),
{
    if mws.len() == 0 {
        ChainOutcome::Through { ctx: m }
    } else {
        match mw_spec(mws[0], m, key, now) {
            MwStep::Short { resp } => ChainOutcome::Short { resp },
            MwStep::Next { ctx } => chain_spec(mws.drop_first(), ctx, key, now),
        }
    }
}

/// Run the chain from layer `j` on, mirroring `chain_spec`.
pub fn run_chain_from(mws: &Vec<Mw>, j: usize, ctx: &mut RequestContext, key: &[u8], now: u64) -> (r:
    Option<Response>)
    requires
        j <= mws.len(),
    ensures
        match r {
            Some(resp) => chain_spec(mws@.skip(j as int), old(ctx)@, key@, now) == (
            ChainOutcome::Short { resp: resp@ }),
            None => chain_spec(mws@.skip(j as int), old(ctx)@, key@, now) == (ChainOutcome::Through {
                ctx: final(ctx)@,
            }),
        },
    decreases mws.len() - j,
{
    proof {
        if j < mws.len() {
            assert(mws@.skip(j as int)[0] == mws@[j as int]);
            assert(mws@.skip(j as int).drop_first() =~= mws@.skip(j as int + 1));
        } else {
            assert(mws@.skip(j as int).len() == 0);
        }
    }
    if j == mws.len() {
        None
    } else {
        match run_middleware(mws[j], ctx, key, now) {
            Some(resp) => Some(resp),
            None => run_chain_from(mws, j + 1, ctx, key, now),
        }
    }
}

/// The application state shared by reference across requests: the
/// counter store and the credential store, constructed once at startup.
pub struct AppState {
    pub counter: Counter,
    pub users: CredentialStore,
}

/// Model of the application state.
pub struct StateModel {
    pub counter: u32,
    pub users: Seq<(Seq<char>, Seq<char>)>,
}

impl View for AppState {
    type V = StateModel;

    open spec fn view(&self) -> StateModel {
        StateModel { counter: self.counter@, users: self.users@ }
    }
}

/// What each terminal handler does: how the response relates to the
/// request context and how the state after relates to the state before.
/// Only signup is not a function of its inputs — its hash carries a
/// fresh salt — so its record is pinned up to a hash that verifies.
pub open spec fn handler_post(
    h: Handler,
    m: CtxModel,
    s0: StateModel,
    s1: StateModel,
    r: RespModel,
    key: Seq<u8>,
    now: u64,
) -> bool {
    match h {
        Handler::HelloWorld => s1 == s0 && r == text_model(200, "Hello World!"@),
        Handler::CallWithId => s1 == s0 && (match alist_get(m.params, "id"@) {
            Some(v) => if is_u32_string(v) {
                r == text_model(200, "Hello from "@ + dec_digits(dec_value(v)))
            } else {
                r == text_model(400, "Bad request"@)
            },
            None => r == text_model(400, "Bad request"@),
        }),
        Handler::QueryParams => s1 == s0 && r == text_model(200, "Hello"@),
        Handler::ParseJson => s1 == s0 && (match m.body {
            BodyModel::Identity { name, age } => r == (RespModel {
                status: 200,
                body: RespBodyModel::IdentityEcho { name, age },
            }),
            _ => r == text_model(400, "Bad request"@),
        }),
        Handler::ParseHeaders => s1 == s0 && r == text_model(200, Seq::<char>::empty()),
        Handler::StatusCode => s1 == s0 && r == text_model(200, "Okay!"@),
        Handler::GetCounter => s1 == s0 && r == (RespModel {
            status: 200,
            body: RespBodyModel::CounterEcho { value: s0.counter },
        }),
        Handler::PutCounter => match m.body {
            BodyModel::CounterValue { value } => s1 == (StateModel { counter: value, ..s0 }) && r
                == (RespModel { status: 200, body: RespBodyModel::CounterEcho { value } }),
            _ => s1 == s0 && r == text_model(400, "Bad request"@),
        },
        Handler::DeleteCounter => s1 == (StateModel { counter: 0, ..s0 }) && r == text_model(
            200,
            "The counter has been deleted."@,
        ),
        Handler::IncreaseCounter => s1.users == s0.users && (s1.counter as int) == (if s0.counter
            == u32::MAX {
            u32::MAX as int
        } else {
            s0.counter + 1
        }) && r == text_model(200, "The count has been increased."@),
        Handler::Hello => s1 == s0 && (match alist_get(m.extensions, "identity"@) {
            Some(_) => r == text_model(200, "Hello"@),
            None => r == text_model(500, "Missing extension"@),
        }),
        Handler::WildcardEcho => s1 == s0 && (match m.wildcard {
            Some(w) => r == text_model(200, w),
            None => r == text_model(400, "Bad request"@),
        }),
        Handler::Profile => s1 == s0 && r == text_model(200, "Profile"@),
        Handler::About => s1 == s0 && r == text_model(200, "About"@),
        Handler::NestedShared => s1 == s0 && r == text_model(200, "Okay"@),
        Handler::Signup => match m.body {
            BodyModel::Credentials { user_name, password } => s1.counter == s0.counter && (({
                &&& (match alist_get(s1.users, user_name) {
                    Some(h) => verifies(password, h) && is_phc_string(h),
                    None => false,
                })
                &&& (forall|k: Seq<char>|
                    k != user_name ==> alist_get(s1.users, k) == alist_get(s0.users, k))
                &&& r == envelope_model(200, "User signed up"@, Seq::<char>::empty())
            }) || (s1.users == s0.users && r == envelope_model(
                500,
                "Internal error"@,
                Seq::<char>::empty(),
            ))),
            _ => s1 == s0 && r == text_model(400, "Bad request"@),
        },
        Handler::Signin => s1 == s0 && (match m.body {
            BodyModel::Credentials { user_name, password } => match alist_get(
                s0.users,
                user_name,
            ) {
                None => r == envelope_model(404, "User does not exist"@, Seq::<char>::empty()),
                Some(h) => if verifies(password, h) {
                    r == envelope_model(
                        200,
                        "Signed in"@,
                        token_of(key, user_name, (now + TOKEN_TTL_SECONDS) as u64),
                    )
                } else {
                    r == envelope_model(401, "Invalid password"@, Seq::<char>::empty())
                },
            },
            _ => r == text_model(400, "Bad request"@),
        }),
        Handler::Protected => s1 == s0 && (match alist_get(m.extensions, "auth_user"@) {
            Some(u) => r == text_model(200, "Hello "@ + u),
            None => r == text_model(500, "Missing extension"@),
        }),
    }
}

/// Run the terminal handler, mirroring `handler_post`.
pub fn run_handler(
    h: Handler,
    ctx: &RequestContext,
    state: &mut AppState,
    key: &[u8],
    now: u64,
) -> (r: Response)
    requires
        old(state).users.wf(),
        now + TOKEN_TTL_SECONDS <= u64::MAX,
    ensures
        final(state).users.wf(),
        handler_post(h, ctx@, old(state)@, final(state)@, r@, key@, now),
{
    match h {
        Handler::HelloWorld => text_response(200, "Hello World!"),
        Handler::CallWithId => {
            match alist_lookup(&ctx.params, "id") {
                Some(v) => {
                    match parse_u32(v.as_str()) {
                        Some(n) => {
                            let prefix: String = "Hello from ".to_owned();
                            let digits = u32_to_string(n);
                            let s = prefix.concat(digits.as_str());
                            Response { status: 200, body: ResponseBody::Text(s) }
                        },
                        None => text_response(400, "Bad request"),
                    }
                },
                None => text_response(400, "Bad request"),
            }
        },
        Handler::QueryParams => text_response(200, "Hello"),
        Handler::ParseJson => {
            match &ctx.body {
                RequestBody::Identity { name, age } => Response {
                    status: 200,
                    body: ResponseBody::IdentityEcho { name: name.clone(), age: *age },
                },
                _ => text_response(400, "Bad request"),
            }
        },
        Handler::ParseHeaders => {
            proof {
                reveal_strlit("");
                assert(""@ =~= Seq::<char>::empty());
            }
            text_response(200, "")
        },
        Handler::StatusCode => text_response(200, "Okay!"),
        Handler::GetCounter => {
            let value = state.counter.get();
            Response { status: 200, body: ResponseBody::CounterEcho { value } }
        },
        Handler::PutCounter => {
            match &ctx.body {
                RequestBody::CounterValue { value } => {
                    state.counter.set(*value);
                    Response { status: 200, body: ResponseBody::CounterEcho { value: *value } }
                },
                _ => text_response(400, "Bad request"),
            }
        },
        Handler::DeleteCounter => {
            state.counter.reset();
            text_response(200, "The counter has been deleted.")
        },
        Handler::IncreaseCounter => {
            if state.counter.get() < u32::MAX {
                state.counter.increment();
            }
            text_response(200, "The count has been increased.")
        },
        Handler::Hello => {
            match alist_lookup(&ctx.extensions, "identity") {
                Some(_) => text_response(200, "Hello"),
                None => text_response(500, "Missing extension"),
            }
        },
        Handler::WildcardEcho => {
            match &ctx.wildcard {
                Some(w) => Response { status: 200, body: ResponseBody::Text(w.clone()) },
                None => text_response(400, "Bad request"),
            }
        },
        Handler::Profile => text_response(200, "Profile"),
        Handler::About => text_response(200, "About"),
        Handler::NestedShared => text_response(200, "Okay"),
        Handler::Signup => {
            match &ctx.body {
                RequestBody::Credentials { user_name, password } => {
                    match signup(&mut state.users, user_name.as_str(), password.as_str()) {
                        Ok(_) => {
                            let resp = envelope_response(200, "User signed up", String::new());
                            proof {
                                assert forall|k: Seq<char>| k != user_name@ implies alist_get(
                                    state@.users,
                                    k,
                                ) == alist_get(old(state)@.users, k) by {
                                    assert(state.users.spec_lookup(k) == old(
                                        state,
                                    ).users.spec_lookup(k));
                                }
                            }
                            assert(handler_post(h, ctx@, old(state)@, state@, resp@, key@, now));
                            resp
                        },
                        Err(_) => envelope_response(500, "Internal error", String::new()),
                    }
                },
                _ => text_response(400, "Bad request"),
            }
        },
        Handler::Signin => {
            match &ctx.body {
                RequestBody::Credentials { user_name, password } => {
                    match signin(
                        &state.users,
                        user_name.as_str(),
                        password.as_str(),
                        key,
                        now,
                        TOKEN_TTL_SECONDS,
                    ) {
                        Ok(t) => envelope_response(200, "Signed in", t),
                        Err(AuthError::UserDoesNotExist) => envelope_response(
                            404,
                            "User does not exist",
                            String::new(),
                        ),
                        Err(_) => envelope_response(401, "Invalid password", String::new()),
                    }
                },
                _ => text_response(400, "Bad request"),
            }
        },
        Handler::Protected => {
            match alist_lookup(&ctx.extensions, "auth_user") {
                Some(u) => {
                    let prefix: String = "Hello ".to_owned();
                    let s = prefix.concat(u.as_str());
                    Response { status: 200, body: ResponseBody::Text(s) }
                },
                None => text_response(500, "Missing extension"),
            }
        },
    }
}

/// Entry `i` is the route `resolve` picks: it matches, nothing matching
/// outranks it, and among precedence ties it came first.
pub open spec fn best_match_at(
    t: Seq<EntryModel>,
    i: int,
    method: Method,
    ss: Seq<Seq<char>>,
) -> bool {
    &&& matches_at(t, i, method, ss)
    &&& (forall|j: int|
        matches_at(t, j, method, ss) ==> prec_cmp(t[i].pattern, (#[trigger] t[j]).pattern) >= 0)
    &&& (forall|j: int|
        matches_at(t, j, method, ss) && prec_cmp(t[i].pattern, (#[trigger] t[j]).pattern) == 0
            ==> i <= j)
}

/// The context as the winning route hands it to its chain: the matcher's
/// parameters and wildcard remainder filled in.
pub open spec fn routed_ctx(m: CtxModel, t: Seq<EntryModel>, i: int, ss: Seq<Seq<char>>) -> CtxModel {
    CtxModel { params: pat_params(t[i].pattern, ss), wildcard: pat_wild(t[i].pattern, ss), ..m }
}

/// What dispatching through one route does: the first short-circuiting
/// middleware's response with the state untouched, or the handler's
/// outcome on the context the chain passed through.
pub open spec fn dispatch_post(
    e: EntryModel,
    m: CtxModel,
    s0: StateModel,
    s1: StateModel,
    r: RespModel,
    key: Seq<u8>,
    now: u64,
) -> bool {
    match chain_spec(e.middlewares, m, key, now) {
        ChainOutcome::Short { resp } => s1 == s0 && r == resp,
        ChainOutcome::Through { ctx } => handler_post(e.handler, ctx, s0, s1, r, key, now),
    }
}

/// What serving a request does: `404 | Not Found` when no route matches;
/// otherwise the winning route's chain and handler decide.
pub open spec fn serve_post(
    t: Seq<EntryModel>,
    m: CtxModel,
    s0: StateModel,
    s1: StateModel,
    r: RespModel,
    key: Seq<u8>,
    now: u64,
) -> bool {
    if exists|j: int| matches_at(t, j, m.method, split_slash(m.path)) {
        exists|i: int|
            #[trigger] best_match_at(t, i, m.method, split_slash(m.path)) && dispatch_post(
                t[i],
                routed_ctx(m, t, i, split_slash(m.path)),
                s0,
                s1,
                r,
                key,
                now,
            )
    } else {
        s1 == s0 && r == text_model(404, "404 | Not Found"@)
    }
}

/// Serve one request against the table: resolve the best-matching route,
/// fill the extracted parameters into the context, run the route's
/// middleware chain in order, and the terminal handler if no layer
/// short-circuited.
pub fn serve(
    table: &RouteTable,
    request: RequestContext,
    state: &mut AppState,
    key: &[u8],
    now: u64,
) -> (r: Response)
    requires
        old(state).users.wf(),
        now + TOKEN_TTL_SECONDS <= u64::MAX,
    ensures
        final(state).users.wf(),
        serve_post(table@, request@, old(state)@, final(state)@, r@, key@, now),
{
    let ghost m0 = request@;
    let ghost ss = split_slash(request.path@);
    match table.resolve(request.method, request.path.as_str()) {
        None => {
            assert(forall|j: int| !matches_at(table@, j, m0.method, ss));
            text_response(404, "404 | Not Found")
        },
        Some(mr) => {
            let ghost i = mr.index as int;
            assert(best_match_at(table@, i, m0.method, ss));
            let mut ctx = request;
            ctx.params = mr.params;
            ctx.wildcard = mr.wildcard;
            proof {
                assert(alist_view(ctx.params@) == pat_params(table@[i].pattern, ss));
                assert(ctx@ == routed_ctx(m0, table@, i, ss));
            }
            let handler = table.entries[mr.index].handler;
            let resp = match run_chain_from(
                &table.entries[mr.index].middlewares,
                0,
                &mut ctx,
                key,
                now,
            ) {
                Some(resp) => resp,
                None => run_handler(handler, &ctx, state, key, now),
            };
            proof {
                assert(table.entries@[i]@.middlewares == table@[i].middlewares);
                assert(table.entries@[i]@.handler == table@[i].handler);
                assert(table.entries[i].middlewares@.skip(0) =~= table@[i].middlewares);
                assert(dispatch_post(
                    table@[i],
                    routed_ctx(m0, table@, i, ss),
                    old(state)@,
                    state@,
                    resp@,
                    key@,
                    now,
                ));
            }
            resp
        },
    }
}

/// A literal segment model.
pub open spec fn lit(text: Seq<char>) -> SegModel {
    SegModel::Literal { text }
}

/// The empty literal every parsed pattern starts with.
pub open spec fn empty_lit() -> SegModel {
    SegModel::Literal { text: Seq::<char>::empty() }
}

/// The full application table: every route of the served surface with
/// its method, pattern, handler and middleware chain, in registration
/// order. Global middleware stands first in every chain (outermost);
/// per-route middleware follows it, closest to the handler.
pub open spec fn app_table() -> Seq<EntryModel> {
    seq![
        EntryModel {
            method: Method::Get,
            pattern: seq![empty_lit(), empty_lit()],
            handler: Handler::HelloWorld,
            middlewares: seq![Mw::Global],
        },
        EntryModel {
            method: Method::Get,
            pattern: seq![empty_lit(), lit("user"@), lit("profile"@)],
            handler: Handler::Profile,
            middlewares: seq![Mw::Global],
        },
        EntryModel {
            method: Method::Get,
            pattern: seq![empty_lit(), lit("about"@)],
            handler: Handler::About,
            middlewares: seq![Mw::Global],
        },
        EntryModel {
            method: Method::Get,
            pattern: seq![empty_lit(), lit("hello"@)],
            handler: Handler::Hello,
            middlewares: seq![Mw::Global, Mw::InjectIdentity],
        },
        EntryModel {
            method: Method::Get,
            pattern: seq![empty_lit(), lit("wildcard"@), (SegModel::Wildcard { name: "rest"@ })],
            handler: Handler::WildcardEcho,
            middlewares: seq![Mw::Global],
        },
        EntryModel {
            method: Method::Get,
            pattern: seq![empty_lit(), (SegModel::Param { name: "id"@ })],
            handler: Handler::CallWithId,
            middlewares: seq![Mw::Global, Mw::NumericId],
        },
        EntryModel {
            method: Method::Get,
            pattern: seq![empty_lit(), lit("id"@)],
            handler: Handler::QueryParams,
            middlewares: seq![Mw::Global],
        },
        EntryModel {
            method: Method::Post,
            pattern: seq![empty_lit(), lit("identity"@)],
            handler: Handler::ParseJson,
            middlewares: seq![Mw::Global],
        },
        EntryModel {
            method: Method::Post,
            pattern: seq![empty_lit(), lit("headers"@)],
            handler: Handler::ParseHeaders,
            middlewares: seq![Mw::Global],
        },
        EntryModel {
            method: Method::Post,
            pattern: seq![empty_lit(), lit("status-code"@)],
            handler: Handler::StatusCode,
            middlewares: seq![Mw::Global],
        },
        EntryModel {
            method: Method::Post,
            pattern: seq![empty_lit(), lit("counter"@)],
            handler: Handler::IncreaseCounter,
            middlewares: seq![Mw::Global],
        },
        EntryModel {
            method: Method::Get,
            pattern: seq![empty_lit(), lit("counter"@)],
            handler: Handler::GetCounter,
            middlewares: seq![Mw::Global],
        },
        EntryModel {
            method: Method::Put,
            pattern: seq![empty_lit(), lit("counter"@)],
            handler: Handler::PutCounter,
            middlewares: seq![Mw::Global],
        },
        EntryModel {
            method: Method::Delete,
            pattern: seq![empty_lit(), lit("counter"@)],
            handler: Handler::DeleteCounter,
            middlewares: seq![Mw::Global],
        },
        EntryModel {
            method: Method::Get,
            pattern: seq![empty_lit(), lit("nested"@), lit("new"@)],
            handler: Handler::NestedShared,
            middlewares: seq![Mw::Global],
        },
        EntryModel {
            method: Method::Post,
            pattern: seq![empty_lit(), lit("auth"@), lit("signup"@)],
            handler: Handler::Signup,
            middlewares: seq![Mw::Global],
        },
        EntryModel {
            method: Method::Post,
            pattern: seq![empty_lit(), lit("auth"@), lit("signin"@)],
            handler: Handler::Signin,
            middlewares: seq![Mw::Global],
        },
        EntryModel {
            method: Method::Get,
            pattern: seq![empty_lit(), lit("auth"@), lit("protected"@)],
            handler: Handler::Protected,
            middlewares: seq![Mw::Global, Mw::LoginRequired],
        },
    ]
}

/// No two routes of the application table bind the same method to
/// structurally identical patterns: the configuration is free of
/// duplicates.
proof fn lemma_app_table_routes_distinct()
    ensures
        forall|i: int, j: int|
            0 <= i < j < app_table().len() && app_table()[i].method == app_table()[j].method
                ==> !(#[trigger] pat_same(app_table()[i].pattern, app_table()[j].pattern)),
{
    reveal_strlit("about");
    reveal_strlit("hello");
    reveal_strlit("id");
    reveal_strlit("counter");
    reveal_strlit("user");
    reveal_strlit("wildcard");
    reveal_strlit("nested");
    reveal_strlit("auth");
    reveal_strlit("identity");
    reveal_strlit("headers");
    reveal_strlit("status-code");
    reveal_strlit("signup");
    reveal_strlit("signin");
    assert("about"@.len() == 5);
    assert("hello"@.len() == 5);
    assert("id"@.len() == 2);
    assert("counter"@.len() == 7);
    assert("user"@.len() == 4);
    assert("wildcard"@.len() == 8);
    assert("nested"@.len() == 6);
    assert("auth"@.len() == 4);
    assert("identity"@.len() == 8);
    assert("headers"@.len() == 7);
    assert("status-code"@.len() == 11);
    assert("signup"@.len() == 6);
    assert("signin"@.len() == 6);
    assert("about"@[0] != "hello"@[0]);
    assert("about"@ != "hello"@);
    assert("user"@[0] != "auth"@[0]);
    assert("user"@ != "auth"@);
    assert("headers"@[0] != "counter"@[0]);
    assert("headers"@ != "counter"@);
    assert("signup"@[4] != "signin"@[4]);
    assert("signup"@ != "signin"@);
    assert forall|i: int, j: int|
        0 <= i < j < app_table().len() && app_table()[i].method == app_table()[j].method implies !(
    #[trigger] pat_same(app_table()[i].pattern, app_table()[j].pattern)) by {
            if i < 8 {
                if i < 4 {
                    if i < 2 {
                        if i < 1 {
                            if j < 9 {
                                if j < 5 {
                                    if j < 3 {
                                        if j < 2 {
                                        } else {
                                            assert(!seg_same(app_table()[0].pattern[1], app_table()[2].pattern[1]));
                                        }
                                    } else {
                                        if j < 4 {
                                            assert(!seg_same(app_table()[0].pattern[1], app_table()[3].pattern[1]));
                                        } else {
                                        }
                                    }
                                } else {
                                    if j < 7 {
                                        if j < 6 {
                                            assert(!seg_same(app_table()[0].pattern[1], app_table()[5].pattern[1]));
                                        } else {
                                            assert(!seg_same(app_table()[0].pattern[1], app_table()[6].pattern[1]));
                                        }
                                    } else {
                                        if j < 8 {
                                        } else {
                                        }
                                    }
                                }
                            } else {
                                if j < 13 {
                                    if j < 11 {
                                        if j < 10 {
                                        } else {
                                        }
                                    } else {
                                        if j < 12 {
                                            assert(!seg_same(app_table()[0].pattern[1], app_table()[11].pattern[1]));
                                        } else {
                                        }
                                    }
                                } else {
                                    if j < 15 {
                                        if j < 14 {
                                        } else {
                                        }
                                    } else {
                                        if j < 16 {
                                        } else {
                                            if j < 17 {
                                            } else {
                                            }
                                        }
                                    }
                                }
                            }
                        } else {
                            if j < 10 {
                                if j < 6 {
                                    if j < 4 {
                                        if j < 3 {
                                        } else {
                                        }
                                    } else {
                                        if j < 5 {
                                            assert(!seg_same(app_table()[1].pattern[1], app_table()[4].pattern[1]));
                                        } else {
                                        }
                                    }
                                } else {
                                    if j < 8 {
                                        if j < 7 {
                                        } else {
                                        }
                                    } else {
                                        if j < 9 {
                                        } else {
                                        }
                                    }
                                }
                            } else {
                                if j < 14 {
                                    if j < 12 {
                                        if j < 11 {
                                        } else {
                                        }
                                    } else {
                                        if j < 13 {
                                        } else {
                                        }
                                    }
                                } else {
                                    if j < 16 {
                                        if j < 15 {
                                            assert(!seg_same(app_table()[1].pattern[1], app_table()[14].pattern[1]));
                                        } else {
                                        }
                                    } else {
                                        if j < 17 {
                                        } else {
                                            assert(!seg_same(app_table()[1].pattern[1], app_table()[17].pattern[1]));
                                        }
                                    }
                                }
                            }
                        }
                    } else {
                        if i < 3 {
                            if j < 10 {
                                if j < 6 {
                                    if j < 4 {
                                        assert(!seg_same(app_table()[2].pattern[1], app_table()[3].pattern[1]));
                                    } else {
                                        if j < 5 {
                                        } else {
                                            assert(!seg_same(app_table()[2].pattern[1], app_table()[5].pattern[1]));
                                        }
                                    }
                                } else {
                                    if j < 8 {
                                        if j < 7 {
                                            assert(!seg_same(app_table()[2].pattern[1], app_table()[6].pattern[1]));
                                        } else {
                                        }
                                    } else {
                                        if j < 9 {
                                        } else {
                                        }
                                    }
                                }
                            } else {
                                if j < 14 {
                                    if j < 12 {
                                        if j < 11 {
                                        } else {
                                            assert(!seg_same(app_table()[2].pattern[1], app_table()[11].pattern[1]));
                                        }
                                    } else {
                                        if j < 13 {
                                        } else {
                                        }
                                    }
                                } else {
                                    if j < 16 {
                                        if j < 15 {
                                        } else {
                                        }
                                    } else {
                                        if j < 17 {
                                        } else {
                                        }
                                    }
                                }
                            }
                        } else {
                            if j < 11 {
                                if j < 7 {
                                    if j < 5 {
                                    } else {
                                        if j < 6 {
                                            assert(!seg_same(app_table()[3].pattern[1], app_table()[5].pattern[1]));
                                        } else {
                                            assert(!seg_same(app_table()[3].pattern[1], app_table()[6].pattern[1]));
                                        }
                                    }
                                } else {
                                    if j < 9 {
                                        if j < 8 {
                                        } else {
                                        }
                                    } else {
                                        if j < 10 {
                                        } else {
                                        }
                                    }
                                }
                            } else {
                                if j < 14 {
                                    if j < 12 {
                                        assert(!seg_same(app_table()[3].pattern[1], app_table()[11].pattern[1]));
                                    } else {
                                        if j < 13 {
                                        } else {
                                        }
                                    }
                                } else {
                                    if j < 16 {
                                        if j < 15 {
                                        } else {
                                        }
                                    } else {
                                        if j < 17 {
                                        } else {
                                        }
                                    }
                                }
                            }
                        }
                    }
                } else {
                    if i < 6 {
                        if i < 5 {
                            if j < 11 {
                                if j < 8 {
                                    if j < 6 {
                                    } else {
                                        if j < 7 {
                                        } else {
                                        }
                                    }
                                } else {
                                    if j < 9 {
                                    } else {
                                        if j < 10 {
                                        } else {
                                        }
                                    }
                                }
                            } else {
                                if j < 14 {
                                    if j < 12 {
                                    } else {
                                        if j < 13 {
                                        } else {
                                        }
                                    }
                                } else {
                                    if j < 16 {
                                        if j < 15 {
                                            assert(!seg_same(app_table()[4].pattern[1], app_table()[14].pattern[1]));
                                        } else {
                                        }
                                    } else {
                                        if j < 17 {
                                        } else {
                                            assert(!seg_same(app_table()[4].pattern[1], app_table()[17].pattern[1]));
                                        }
                                    }
                                }
                            }
                        } else {
                            if j < 12 {
                                if j < 9 {
                                    if j < 7 {
                                        assert(!seg_same(app_table()[5].pattern[1], app_table()[6].pattern[1]));
                                    } else {
                                        if j < 8 {
                                        } else {
                                        }
                                    }
                                } else {
                                    if j < 10 {
                                    } else {
                                        if j < 11 {
                                        } else {
                                            assert(!seg_same(app_table()[5].pattern[1], app_table()[11].pattern[1]));
                                        }
                                    }
                                }
                            } else {
                                if j < 15 {
                                    if j < 13 {
                                    } else {
                                        if j < 14 {
                                        } else {
                                        }
                                    }
                                } else {
                                    if j < 16 {
                                    } else {
                                        if j < 17 {
                                        } else {
                                        }
                                    }
                                }
                            }
                        }
                    } else {
                        if i < 7 {
                            if j < 12 {
                                if j < 9 {
                                    if j < 8 {
                                    } else {
                                    }
                                } else {
                                    if j < 10 {
                                    } else {
                                        if j < 11 {
                                        } else {
                                            assert(!seg_same(app_table()[6].pattern[1], app_table()[11].pattern[1]));
                                        }
                                    }
                                }
                            } else {
                                if j < 15 {
                                    if j < 13 {
                                    } else {
                                        if j < 14 {
                                        } else {
                                        }
                                    }
                                } else {
                                    if j < 16 {
                                    } else {
                                        if j < 17 {
                                        } else {
                                        }
                                    }
                                }
                            }
                        } else {
                            if j < 13 {
                                if j < 10 {
                                    if j < 9 {
                                        assert(!seg_same(app_table()[7].pattern[1], app_table()[8].pattern[1]));
                                    } else {
                                        assert(!seg_same(app_table()[7].pattern[1], app_table()[9].pattern[1]));
                                    }
                                } else {
                                    if j < 11 {
                                        assert(!seg_same(app_table()[7].pattern[1], app_table()[10].pattern[1]));
                                    } else {
                                        if j < 12 {
                                        } else {
                                        }
                                    }
                                }
                            } else {
                                if j < 15 {
                                    if j < 14 {
                                    } else {
                                    }
                                } else {
                                    if j < 16 {
                                    } else {
                                        if j < 17 {
                                        } else {
                                        }
                                    }
                                }
                            }
                        }
                    }
                }
            } else {
                if i < 12 {
                    if i < 10 {
                        if i < 9 {
                            if j < 13 {
                                if j < 11 {
                                    if j < 10 {
                                        assert(!seg_same(app_table()[8].pattern[1], app_table()[9].pattern[1]));
                                    } else {
                                        assert(!seg_same(app_table()[8].pattern[1], app_table()[10].pattern[1]));
                                    }
                                } else {
                                    if j < 12 {
                                    } else {
                                    }
                                }
                            } else {
                                if j < 15 {
                                    if j < 14 {
                                    } else {
                                    }
                                } else {
                                    if j < 16 {
                                    } else {
                                        if j < 17 {
                                        } else {
                                        }
                                    }
                                }
                            }
                        } else {
                            if j < 14 {
                                if j < 12 {
                                    if j < 11 {
                                        assert(!seg_same(app_table()[9].pattern[1], app_table()[10].pattern[1]));
                                    } else {
                                    }
                                } else {
                                    if j < 13 {
                                    } else {
                                    }
                                }
                            } else {
                                if j < 16 {
                                    if j < 15 {
                                    } else {
                                    }
                                } else {
                                    if j < 17 {
                                    } else {
                                    }
                                }
                            }
                        }
                    } else {
                        if i < 11 {
                            if j < 14 {
                                if j < 12 {
                                } else {
                                    if j < 13 {
                                    } else {
                                    }
                                }
                            } else {
                                if j < 16 {
                                    if j < 15 {
                                    } else {
                                    }
                                } else {
                                    if j < 17 {
                                    } else {
                                    }
                                }
                            }
                        } else {
                            if j < 15 {
                                if j < 13 {
                                } else {
                                    if j < 14 {
                                    } else {
                                    }
                                }
                            } else {
                                if j < 16 {
                                } else {
                                    if j < 17 {
                                    } else {
                                    }
                                }
                            }
                        }
                    }
                } else {
                    if i < 14 {
                        if i < 13 {
                            if j < 15 {
                                if j < 14 {
                                } else {
                                }
                            } else {
                                if j < 16 {
                                } else {
                                    if j < 17 {
                                    } else {
                                    }
                                }
                            }
                        } else {
                            if j < 16 {
                                if j < 15 {
                                } else {
                                }
                            } else {
                                if j < 17 {
                                } else {
                                }
                            }
                        }
                    } else {
                        if i < 15 {
                            if j < 16 {
                            } else {
                                if j < 17 {
                                } else {
                                    assert(!seg_same(app_table()[14].pattern[1], app_table()[17].pattern[1]));
                                }
                            }
                        } else {
                            if i < 16 {
                                if j < 17 {
                                    assert(!seg_same(app_table()[15].pattern[2], app_table()[16].pattern[2]));
                                } else {
                                }
                            } else {
                            }
                        }
                    }
                }
            }
    }
}

fn empty_seg() -> (r: Segment)
    ensures
        r@ == empty_lit(),
{
    Segment::Literal(String::new())
}

fn lit_seg(text: &str) -> (r: Segment)
    ensures
        r@ == lit(text@),
{
    Segment::Literal(text.to_owned())
}

/// Register route `k` of the application table; the distinctness of the
/// table rules a duplicate out, so registration succeeds.
fn add_route(
    t: &mut RouteTable,
    Ghost(k): Ghost<int>,
    method: Method,
    pattern: RoutePattern,
    handler: Handler,
    mws: Vec<Mw>,
) -> (r: Result<(), RouteError>)
    requires
        0 <= k < app_table().len(),
        old(t)@ =~= app_table().take(k),
        table_wf(old(t)@),
        method == app_table()[k].method,
        pattern@ == app_table()[k].pattern,
        handler == app_table()[k].handler,
        mws@ == app_table()[k].middlewares,
        pattern_wf(pattern@),
    ensures
        r is Ok,
        table_wf(final(t)@),
        final(t)@ =~= app_table().take(k + 1),
{
    proof {
        lemma_app_table_routes_distinct();
        if has_dup(t@, method, pattern@) {
            let j = choose|j: int|
                0 <= j < t@.len() && t@[j].method == method && pat_same(t@[j].pattern, pattern@);
            assert(t@[j] == app_table()[j]);
            assert(pat_same(app_table()[j].pattern, app_table()[k].pattern));
            assert(false);
        }
    }
    let r = t.register(method, pattern, handler, mws);
    proof {
        assert(t@ =~= app_table().take(k + 1));
    }
    r
}

/// The application's route table, mirroring the served HTTP surface. It
/// builds exactly the entries of `app_table`, and building succeeds: the
/// configuration holds no duplicate (method, pattern) pair.
pub fn build_app_table() -> (r: Result<RouteTable, RouteError>)
    ensures
        r is Ok,
        r matches Ok(t) ==> table_wf(t@) && t@ =~= app_table(),
{
    let mut t = RouteTable::new();
    proof {
        assert(t@ =~= app_table().take(0));
    }
    let p0 = RoutePattern { segs: vec![empty_seg(), empty_seg()] };
    let m0 = vec![Mw::Global];
    proof {
        assert(p0@ =~= app_table()[0].pattern);
        assert(m0@ =~= app_table()[0].middlewares);
        assert(pattern_wf(p0@));
    }
    add_route(&mut t, Ghost(0), Method::Get, p0, Handler::HelloWorld, m0)?;
    let p1 = RoutePattern { segs: vec![empty_seg(), lit_seg("user"), lit_seg("profile")] };
    let m1 = vec![Mw::Global];
    proof {
        assert(p1@ =~= app_table()[1].pattern);
        assert(m1@ =~= app_table()[1].middlewares);
        assert(pattern_wf(p1@));
    }
    add_route(&mut t, Ghost(1), Method::Get, p1, Handler::Profile, m1)?;
    let p2 = RoutePattern { segs: vec![empty_seg(), lit_seg("about")] };
    let m2 = vec![Mw::Global];
    proof {
        assert(p2@ =~= app_table()[2].pattern);
        assert(m2@ =~= app_table()[2].middlewares);
        assert(pattern_wf(p2@));
    }
    add_route(&mut t, Ghost(2), Method::Get, p2, Handler::About, m2)?;
    let p3 = RoutePattern { segs: vec![empty_seg(), lit_seg("hello")] };
    let m3 = vec![Mw::Global, Mw::InjectIdentity];
    proof {
        assert(p3@ =~= app_table()[3].pattern);
        assert(m3@ =~= app_table()[3].middlewares);
        assert(pattern_wf(p3@));
    }
    add_route(&mut t, Ghost(3), Method::Get, p3, Handler::Hello, m3)?;
    let p4 = RoutePattern { segs: vec![empty_seg(), lit_seg("wildcard"), Segment::Wildcard("rest".to_owned())] };
    let m4 = vec![Mw::Global];
    proof {
        assert(p4@ =~= app_table()[4].pattern);
        assert(m4@ =~= app_table()[4].middlewares);
        assert(pattern_wf(p4@));
    }
    add_route(&mut t, Ghost(4), Method::Get, p4, Handler::WildcardEcho, m4)?;
    let p5 = RoutePattern { segs: vec![empty_seg(), Segment::Param("id".to_owned())] };
    let m5 = vec![Mw::Global, Mw::NumericId];
    proof {
        assert(p5@ =~= app_table()[5].pattern);
        assert(m5@ =~= app_table()[5].middlewares);
        assert(pattern_wf(p5@));
    }
    add_route(&mut t, Ghost(5), Method::Get, p5, Handler::CallWithId, m5)?;
    let p6 = RoutePattern { segs: vec![empty_seg(), lit_seg("id")] };
    let m6 = vec![Mw::Global];
    proof {
        assert(p6@ =~= app_table()[6].pattern);
        assert(m6@ =~= app_table()[6].middlewares);
        assert(pattern_wf(p6@));
    }
    add_route(&mut t, Ghost(6), Method::Get, p6, Handler::QueryParams, m6)?;
    let p7 = RoutePattern { segs: vec![empty_seg(), lit_seg("identity")] };
    let m7 = vec![Mw::Global];
    proof {
        assert(p7@ =~= app_table()[7].pattern);
        assert(m7@ =~= app_table()[7].middlewares);
        assert(pattern_wf(p7@));
    }
    add_route(&mut t, Ghost(7), Method::Post, p7, Handler::ParseJson, m7)?;
    let p8 = RoutePattern { segs: vec![empty_seg(), lit_seg("headers")] };
    let m8 = vec![Mw::Global];
    proof {
        assert(p8@ =~= app_table()[8].pattern);
        assert(m8@ =~= app_table()[8].middlewares);
        assert(pattern_wf(p8@));
    }
    add_route(&mut t, Ghost(8), Method::Post, p8, Handler::ParseHeaders, m8)?;
    let p9 = RoutePattern { segs: vec![empty_seg(), lit_seg("status-code")] };
    let m9 = vec![Mw::Global];
    proof {
        assert(p9@ =~= app_table()[9].pattern);
        assert(m9@ =~= app_table()[9].middlewares);
        assert(pattern_wf(p9@));
    }
    add_route(&mut t, Ghost(9), Method::Post, p9, Handler::StatusCode, m9)?;
    let p10 = RoutePattern { segs: vec![empty_seg(), lit_seg("counter")] };
    let m10 = vec![Mw::Global];
    proof {
        assert(p10@ =~= app_table()[10].pattern);
        assert(m10@ =~= app_table()[10].middlewares);
        assert(pattern_wf(p10@));
    }
    add_route(&mut t, Ghost(10), Method::Post, p10, Handler::IncreaseCounter, m10)?;
    let p11 = RoutePattern { segs: vec![empty_seg(), lit_seg("counter")] };
    let m11 = vec![Mw::Global];
    proof {
        assert(p11@ =~= app_table()[11].pattern);
        assert(m11@ =~= app_table()[11].middlewares);
        assert(pattern_wf(p11@));
    }
    add_route(&mut t, Ghost(11), Method::Get, p11, Handler::GetCounter, m11)?;
    let p12 = RoutePattern { segs: vec![empty_seg(), lit_seg("counter")] };
    let m12 = vec![Mw::Global];
    proof {
        assert(p12@ =~= app_table()[12].pattern);
        assert(m12@ =~= app_table()[12].middlewares);
        assert(pattern_wf(p12@));
    }
    add_route(&mut t, Ghost(12), Method::Put, p12, Handler::PutCounter, m12)?;
    let p13 = RoutePattern { segs: vec![empty_seg(), lit_seg("counter")] };
    let m13 = vec![Mw::Global];
    proof {
        assert(p13@ =~= app_table()[13].pattern);
        assert(m13@ =~= app_table()[13].middlewares);
        assert(pattern_wf(p13@));
    }
    add_route(&mut t, Ghost(13), Method::Delete, p13, Handler::DeleteCounter, m13)?;
    let p14 = RoutePattern { segs: vec![empty_seg(), lit_seg("nested"), lit_seg("new")] };
    let m14 = vec![Mw::Global];
    proof {
        assert(p14@ =~= app_table()[14].pattern);
        assert(m14@ =~= app_table()[14].middlewares);
        assert(pattern_wf(p14@));
    }
    add_route(&mut t, Ghost(14), Method::Get, p14, Handler::NestedShared, m14)?;
    let p15 = RoutePattern { segs: vec![empty_seg(), lit_seg("auth"), lit_seg("signup")] };
    let m15 = vec![Mw::Global];
    proof {
        assert(p15@ =~= app_table()[15].pattern);
        assert(m15@ =~= app_table()[15].middlewares);
        assert(pattern_wf(p15@));
    }
    add_route(&mut t, Ghost(15), Method::Post, p15, Handler::Signup, m15)?;
    let p16 = RoutePattern { segs: vec![empty_seg(), lit_seg("auth"), lit_seg("signin")] };
    let m16 = vec![Mw::Global];
    proof {
        assert(p16@ =~= app_table()[16].pattern);
        assert(m16@ =~= app_table()[16].middlewares);
        assert(pattern_wf(p16@));
    }
    add_route(&mut t, Ghost(16), Method::Post, p16, Handler::Signin, m16)?;
    let p17 = RoutePattern { segs: vec![empty_seg(), lit_seg("auth"), lit_seg("protected")] };
    let m17 = vec![Mw::Global, Mw::LoginRequired];
    proof {
        assert(p17@ =~= app_table()[17].pattern);
        assert(m17@ =~= app_table()[17].middlewares);
        assert(pattern_wf(p17@));
    }
    add_route(&mut t, Ghost(17), Method::Get, p17, Handler::Protected, m17)?;
    proof {
        assert(app_table().take(app_table().len() as int) =~= app_table());
    }
    Ok(t)
}

} // verus!
