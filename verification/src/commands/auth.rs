//! The authentication model: security schemes, their OAuth2 flows, and how
//! many operations use each.
use vstd::prelude::*;
use crate::strutil::{join, push_str};
use crate::commands::init::{opt_view, pairs_view};
use crate::render::sanitize::{owned, str_eq};

verus! {

#[derive(Debug)]
pub struct AuthModel {
    pub schemes: Vec<SecuritySchemeInfo>,
    pub total_operations: usize,
}

#[derive(Debug, Clone)]
pub struct SecuritySchemeInfo {
    pub name: String,
    pub scheme_type: String,
    pub detail: String,
    pub description: Option<String>,
    pub usage_count: usize,
    /// Non-empty only for OAuth2 schemes.
    pub oauth2_flows: Vec<OAuth2FlowInfo>,
}

#[derive(Debug, Clone)]
pub struct OAuth2FlowInfo {
    pub flow_type: String,
    pub authorization_url: Option<String>,
    pub token_url: Option<String>,
    pub refresh_url: Option<String>,
    pub scopes: Vec<OAuth2ScopeInfo>,
}

#[derive(Debug, Clone)]
pub struct OAuth2ScopeInfo {
    pub name: String,
    pub description: String,
}


// ───────────────────────── what the document declares ─────────────────────────

#[derive(Debug, Clone, Copy, PartialEq, Eq, Structural)]
pub enum ApiKeyLocation {
    Query,
    Header,
    Cookie,
}

#[derive(Debug)]
pub struct ImplicitFlow {
    pub authorization_url: String,
    pub refresh_url: Option<String>,
    pub scopes: Vec<(String, String)>,
}

#[derive(Debug)]
pub struct AuthorizationCodeFlow {
    pub authorization_url: String,
    pub token_url: String,
    pub refresh_url: Option<String>,
    pub scopes: Vec<(String, String)>,
}

/// A client-credentials or password flow.
#[derive(Debug)]
pub struct TokenFlow {
    pub token_url: String,
    pub refresh_url: Option<String>,
    pub scopes: Vec<(String, String)>,
}

#[derive(Debug)]
pub struct OAuth2Flows {
    pub implicit: Option<ImplicitFlow>,
    pub authorization_code: Option<AuthorizationCodeFlow>,
    pub client_credentials: Option<TokenFlow>,
    pub password: Option<TokenFlow>,
}

/// A security scheme as the document declares it.
#[derive(Debug)]
pub enum SchemeSpec {
    Http { scheme: String, description: Option<String> },
    ApiKey { location: ApiKeyLocation, name: String, description: Option<String> },
    OAuth2 { flows: OAuth2Flows, description: Option<String> },
    OpenIdConnect { description: Option<String> },
}

/// A named security scheme; `None` where it is a reference.
#[derive(Debug)]
pub struct NamedScheme {
    pub name: String,
    pub scheme: Option<SchemeSpec>,
}

/// What the authentication summary reads of a document: its schemes in
/// order, the scheme names of each global security requirement, and for
/// each operation the scheme names of each of its own requirements (`None`
/// where it has none of its own).
#[derive(Debug)]
pub struct AuthInput {
    pub schemes: Vec<NamedScheme>,
    pub global_security: Option<Vec<Vec<String>>>,
    pub operations: Vec<Option<Vec<Vec<String>>>>,
}

// ───────────────────────── spec ─────────────────────────

pub open spec fn scopes_view(v: Seq<OAuth2ScopeInfo>) -> Seq<(Seq<char>, Seq<char>)> {
    v.map_values(|s: OAuth2ScopeInfo| (s.name@, s.description@))
}

pub type FlowView = (Seq<char>, Option<Seq<char>>, Option<Seq<char>>, Option<Seq<char>>, Seq<(Seq<char>, Seq<char>)>);

pub open spec fn flow_view(f: OAuth2FlowInfo) -> FlowView {
    (f.flow_type@, opt_view(f.authorization_url), opt_view(f.token_url), opt_view(f.refresh_url), scopes_view(f.scopes@))
}

/// The flows that are there, in the order implicit, authorization code,
/// client credentials, password.
pub open spec fn spec_flows(f: OAuth2Flows) -> Seq<FlowView> {
    (match f.implicit {
        Some(x) => seq![("implicit"@, Some(x.authorization_url@), None, opt_view(x.refresh_url), pairs_view(x.scopes@))],
        None => seq![],
    }) + (match f.authorization_code {
        Some(x) => seq![("authorizationCode"@, Some(x.authorization_url@), Some(x.token_url@), opt_view(x.refresh_url), pairs_view(x.scopes@))],
        None => seq![],
    }) + (match f.client_credentials {
        Some(x) => seq![("clientCredentials"@, None, Some(x.token_url@), opt_view(x.refresh_url), pairs_view(x.scopes@))],
        None => seq![],
    }) + (match f.password {
        Some(x) => seq![("password"@, None, Some(x.token_url@), opt_view(x.refresh_url), pairs_view(x.scopes@))],
        None => seq![],
    })
}

pub open spec fn flow_types(fs: Seq<FlowView>) -> Seq<Seq<char>> {
    fs.map_values(|f: FlowView| f.0)
}

pub open spec fn location_text(l: ApiKeyLocation) -> Seq<char> {
    match l {
        ApiKeyLocation::Query => "query"@,
        ApiKeyLocation::Header => "header"@,
        ApiKeyLocation::Cookie => "cookie"@,
    }
}

pub open spec fn scheme_type(s: SchemeSpec) -> Seq<char> {
    match s {
        SchemeSpec::Http { .. } => "http"@,
        SchemeSpec::ApiKey { .. } => "apiKey"@,
        SchemeSpec::OAuth2 { .. } => "oauth2"@,
        SchemeSpec::OpenIdConnect { .. } => "openIdConnect"@,
    }
}

/// The HTTP scheme; the key's name and where it goes; the OAuth2 flow
/// types; or `openIdConnect`.
pub open spec fn scheme_detail(s: SchemeSpec) -> Seq<char> {
    match s {
        SchemeSpec::Http { scheme, .. } => scheme@,
        SchemeSpec::ApiKey { location, name, .. } => name@ + " ("@ + location_text(location) + ")"@,
        SchemeSpec::OAuth2 { flows, .. } => join(flow_types(spec_flows(flows)), ", "@),
        SchemeSpec::OpenIdConnect { .. } => "openIdConnect"@,
    }
}

pub open spec fn scheme_description(s: SchemeSpec) -> Option<Seq<char>> {
    match s {
        SchemeSpec::Http { description, .. } => opt_view(description),
        SchemeSpec::ApiKey { description, .. } => opt_view(description),
        SchemeSpec::OAuth2 { description, .. } => opt_view(description),
        SchemeSpec::OpenIdConnect { description } => opt_view(description),
    }
}

pub open spec fn scheme_flows(s: SchemeSpec) -> Seq<FlowView> {
    match s {
        SchemeSpec::OAuth2 { flows, .. } => spec_flows(flows),
        _ => seq![],
    }
}

/// Some requirement names the scheme.
pub open spec fn requires_scheme(reqs: Seq<Vec<String>>, name: Seq<char>) -> bool {
    exists|i: int, j: int| 0 <= i < reqs.len() && 0 <= j < reqs[i]@.len() && (#[trigger] reqs[i]@[j])@ == name
}

pub open spec fn globally_required(a: AuthInput, name: Seq<char>) -> bool {
    match a.global_security {
        Some(r) => requires_scheme(r@, name),
        None => false,
    }
}

/// An operation uses a scheme: its own requirements name it, or it has
/// none of its own and the global ones do.
pub open spec fn op_uses(op: Option<Vec<Vec<String>>>, global: bool, name: Seq<char>) -> bool {
    match op {
        Some(r) => requires_scheme(r@, name),
        None => global,
    }
}

pub open spec fn usage(ops: Seq<Option<Vec<Vec<String>>>>, global: bool, name: Seq<char>) -> nat
    decreases ops.len(),
{
    if ops.len() == 0 {
        0
    } else {
        usage(ops.drop_last(), global, name) + if op_uses(ops.last(), global, name) { 1nat } else { 0nat }
    }
}

pub type SchemeView = (Seq<char>, Seq<char>, Seq<char>, Option<Seq<char>>, nat, Seq<FlowView>);

pub open spec fn scheme_info_view(s: SecuritySchemeInfo) -> SchemeView {
    (s.name@, s.scheme_type@, s.detail@, opt_view(s.description), s.usage_count as nat,
        s.oauth2_flows@.map_values(|f: OAuth2FlowInfo| flow_view(f)))
}

/// The declared (not referenced) schemes, in order, each with what it is
/// and how many operations use it.
pub open spec fn spec_schemes(a: AuthInput, ss: Seq<NamedScheme>) -> Seq<SchemeView>
    decreases ss.len(),
{
    if ss.len() == 0 {
        seq![]
    } else {
        let rest = spec_schemes(a, ss.drop_last());
        let n = ss.last();
        match n.scheme {
            Some(s) => rest.push((n.name@, scheme_type(s), scheme_detail(s), scheme_description(s),
                usage(a.operations@, globally_required(a, n.name@), n.name@), scheme_flows(s))),
            None => rest,
        }
    }
}


/// A scheme that the global requirements name is used by every operation
/// that has no requirements of its own; so where no operation has its
/// own, it is used by all of them.
pub proof fn lemma_global_scheme_used_by_all(ops: Seq<Option<Vec<Vec<String>>>>, name: Seq<char>)
    requires
        forall|i: int| 0 <= i < ops.len() ==> (#[trigger] ops[i]) is None,
    ensures
        usage(ops, true, name) == ops.len(),
    decreases ops.len(),
{
    if ops.len() > 0 {
        lemma_global_scheme_used_by_all(ops.drop_last(), name);
    }
}

/// An operation with security requirements of its own is counted for a
/// scheme only by those requirements, whatever the global ones say: where
/// every operation has its own and none of them names the scheme, no
/// operation uses it, even though the global requirements name it.
pub proof fn lemma_own_requirements_override_global(ops: Seq<Option<Vec<Vec<String>>>>, global: bool, name: Seq<char>)
    requires
        forall|i: int| 0 <= i < ops.len() ==> ((#[trigger] ops[i]) matches Some(r) && !requires_scheme(r@, name)),
    ensures
        usage(ops, global, name) == 0,
    decreases ops.len(),
{
    if ops.len() > 0 {
        assert(ops.drop_last().len() == ops.len() - 1);
        assert forall|i: int| 0 <= i < ops.drop_last().len() implies
            ((#[trigger] ops.drop_last()[i]) matches Some(r) && !requires_scheme(r@, name)) by {
            assert(ops.drop_last()[i] == ops[i]);
        }
        lemma_own_requirements_override_global(ops.drop_last(), global, name);
        assert(ops.last() == ops[ops.len() - 1]);
    }
}

/// Whether the global requirements name a scheme makes a difference only
/// for the operations without requirements of their own: where every
/// operation has its own, the count is the same either way.
pub proof fn lemma_global_irrelevant_when_all_own(ops: Seq<Option<Vec<Vec<String>>>>, name: Seq<char>)
    requires
        forall|i: int| 0 <= i < ops.len() ==> (#[trigger] ops[i]) is Some,
    ensures
        usage(ops, true, name) == usage(ops, false, name),
    decreases ops.len(),
{
    if ops.len() > 0 {
        assert forall|i: int| 0 <= i < ops.drop_last().len() implies (#[trigger] ops.drop_last()[i]) is Some by {
            assert(ops.drop_last()[i] == ops[i]);
        }
        lemma_global_irrelevant_when_all_own(ops.drop_last(), name);
        assert(ops.last() == ops[ops.len() - 1]);
    }
}

/// No scheme is used by more operations than there are.
pub proof fn lemma_usage_at_most_operations(ops: Seq<Option<Vec<Vec<String>>>>, global: bool, name: Seq<char>)
    ensures
        usage(ops, global, name) <= ops.len(),
    decreases ops.len(),
{
    if ops.len() > 0 {
        lemma_usage_at_most_operations(ops.drop_last(), global, name);
    }
}

// ───────────────────────── exec ─────────────────────────

fn scopes_from_map(map: &Vec<(String, String)>) -> (r: Vec<OAuth2ScopeInfo>)
    ensures
        scopes_view(r@) == pairs_view(map@),
{
    let mut r: Vec<OAuth2ScopeInfo> = Vec::new();
    let mut i: usize = 0;
    while i < map.len()
        invariant
            i <= map.len(),
            scopes_view(r@) == pairs_view(map@).take(i as int),
        decreases map.len() - i,
    {
        let sc = OAuth2ScopeInfo { name: owned(map[i].0.as_str()), description: owned(map[i].1.as_str()) };
        let ghost b = r@;
        r.push(sc);
        proof {
            assert(scopes_view(r@) =~= scopes_view(b).push((sc.name@, sc.description@)));
            assert(pairs_view(map@).take(i + 1) =~= pairs_view(map@).take(i as int).push((map@[i as int].0@, map@[i as int].1@)));
        }
        i = i + 1;
    }
    assert(pairs_view(map@).take(map@.len() as int) =~= pairs_view(map@));
    r
}

fn copy_opt(o: &Option<String>) -> (r: Option<String>)
    ensures
        opt_view(r) == opt_view(*o),
{
    match o {
        Some(s) => Some(owned(s.as_str())),
        None => None,
    }
}

fn push_flow(v: &mut Vec<OAuth2FlowInfo>, f: OAuth2FlowInfo)
    ensures
        final(v)@.map_values(|x: OAuth2FlowInfo| flow_view(x))
            == old(v)@.map_values(|x: OAuth2FlowInfo| flow_view(x)).push(flow_view(f)),
{
    v.push(f);
    assert(v@.map_values(|x: OAuth2FlowInfo| flow_view(x))
        =~= old(v)@.map_values(|x: OAuth2FlowInfo| flow_view(x)).push(flow_view(f)));
}

/// The flows of an OAuth2 scheme that are there, in a fixed order.
pub fn extract_oauth2_flows(flows: &OAuth2Flows) -> (r: Vec<OAuth2FlowInfo>)
    ensures
        r@.map_values(|x: OAuth2FlowInfo| flow_view(x)) == spec_flows(*flows),
{
    let mut r: Vec<OAuth2FlowInfo> = Vec::new();
    let ghost mut want: Seq<FlowView> = seq![];
    match &flows.implicit {
        Some(f) => push_flow(&mut r, OAuth2FlowInfo {
            flow_type: owned("implicit"),
            authorization_url: Some(owned(f.authorization_url.as_str())),
            token_url: None,
            refresh_url: copy_opt(&f.refresh_url),
            scopes: scopes_from_map(&f.scopes),
        }),
        None => {},
    }
    match &flows.authorization_code {
        Some(f) => push_flow(&mut r, OAuth2FlowInfo {
            flow_type: owned("authorizationCode"),
            authorization_url: Some(owned(f.authorization_url.as_str())),
            token_url: Some(owned(f.token_url.as_str())),
            refresh_url: copy_opt(&f.refresh_url),
            scopes: scopes_from_map(&f.scopes),
        }),
        None => {},
    }
    match &flows.client_credentials {
        Some(f) => push_flow(&mut r, OAuth2FlowInfo {
            flow_type: owned("clientCredentials"),
            authorization_url: None,
            token_url: Some(owned(f.token_url.as_str())),
            refresh_url: copy_opt(&f.refresh_url),
            scopes: scopes_from_map(&f.scopes),
        }),
        None => {},
    }
    match &flows.password {
        Some(f) => push_flow(&mut r, OAuth2FlowInfo {
            flow_type: owned("password"),
            authorization_url: None,
            token_url: Some(owned(f.token_url.as_str())),
            refresh_url: copy_opt(&f.refresh_url),
            scopes: scopes_from_map(&f.scopes),
        }),
        None => {},
    }
    assert(r@.map_values(|x: OAuth2FlowInfo| flow_view(x)) =~= spec_flows(*flows));
    r
}

fn names_scheme(reqs: &Vec<Vec<String>>, name: &str) -> (r: bool)
    ensures
        r == requires_scheme(reqs@, name@),
{
    let mut i: usize = 0;
    while i < reqs.len()
        invariant
            i <= reqs.len(),
            forall|a: int, b: int| 0 <= a < i && 0 <= b < reqs@[a]@.len() ==> (#[trigger] reqs@[a]@[b])@ != name@,
        decreases reqs.len() - i,
    {
        let mut j: usize = 0;
        while j < reqs[i].len()
            invariant
                i < reqs.len(),
                j <= reqs@[i as int]@.len(),
                forall|b: int| 0 <= b < j ==> (#[trigger] reqs@[i as int]@[b])@ != name@,
            decreases reqs@[i as int]@.len() - j,
        {
            if str_eq(reqs[i][j].as_str(), name) {
                return true;
            }
            j = j + 1;
        }
        i = i + 1;
    }
    false
}

/// How many operations use the scheme: by their own requirements, or by
/// the global ones where they have none of their own.
pub fn count_scheme_usage(input: &AuthInput, scheme_name: &str) -> (n: usize)
    ensures
        n == usage(input.operations@, globally_required(*input, scheme_name@), scheme_name@),
{
    let global = match &input.global_security {
        Some(r) => names_scheme(r, scheme_name),
        None => false,
    };
    let mut n: usize = 0;
    let mut i: usize = 0;
    while i < input.operations.len()
        invariant
            i <= input.operations.len(),
            n <= i,
            global == globally_required(*input, scheme_name@),
            n == usage(input.operations@.take(i as int), global, scheme_name@),
        decreases input.operations.len() - i,
    {
        proof { assert(input.operations@.take(i + 1).drop_last() =~= input.operations@.take(i as int)); }
        let uses = match &input.operations[i] {
            Some(r) => names_scheme(r, scheme_name),
            None => global,
        };
        if uses {
            n = n + 1;
        }
        i = i + 1;
    }
    assert(input.operations@.take(input.operations@.len() as int) =~= input.operations@);
    n
}

fn flow_types_joined(flows: &Vec<OAuth2FlowInfo>) -> (r: String)
    ensures
        r@ == join(flows@.map_values(|x: OAuth2FlowInfo| flow_view(x).0), ", "@),
{
    let ghost views = flows@.map_values(|x: OAuth2FlowInfo| flow_view(x).0);
    let mut r = String::new();
    let mut i: usize = 0;
    while i < flows.len()
        invariant
            i <= flows.len(),
            views == flows@.map_values(|x: OAuth2FlowInfo| flow_view(x).0),
            r@ == join(views.take(i as int), ", "@),
        decreases flows.len() - i,
    {
        proof {
            assert(views.take(i + 1) =~= views.take(i as int).push(views[i as int]));
            crate::strutil::lemma_join_push(views.take(i as int), views[i as int], ", "@);
        }
        if i > 0 {
            push_str(&mut r, ", ");
        }
        push_str(&mut r, flows[i].flow_type.as_str());
        i = i + 1;
    }
    assert(views.take(flows@.len() as int) =~= views);
    r
}

fn scheme_info(input: &AuthInput, name: &String, s: &SchemeSpec) -> (r: SecuritySchemeInfo)
    ensures
        scheme_info_view(r) == (name@, scheme_type(*s), scheme_detail(*s), scheme_description(*s),
            usage(input.operations@, globally_required(*input, name@), name@), scheme_flows(*s)),
{
    let usage_count = count_scheme_usage(input, name.as_str());
    match s {
        SchemeSpec::Http { scheme, description } => {
            let r = SecuritySchemeInfo {
                name: owned(name.as_str()),
                scheme_type: owned("http"),
                detail: owned(scheme.as_str()),
                description: copy_opt(description),
                usage_count,
                oauth2_flows: Vec::new(),
            };
            assert(r.oauth2_flows@.map_values(|f: OAuth2FlowInfo| flow_view(f)) =~= scheme_flows(*s));
            r
        },
        SchemeSpec::ApiKey { location, name: key, description } => {
            let mut detail = owned(key.as_str());
            push_str(&mut detail, " (");
            match location {
                ApiKeyLocation::Query => push_str(&mut detail, "query"),
                ApiKeyLocation::Header => push_str(&mut detail, "header"),
                ApiKeyLocation::Cookie => push_str(&mut detail, "cookie"),
            }
            push_str(&mut detail, ")");
            let r = SecuritySchemeInfo {
                name: owned(name.as_str()),
                scheme_type: owned("apiKey"),
                detail,
                description: copy_opt(description),
                usage_count,
                oauth2_flows: Vec::new(),
            };
            assert(r.oauth2_flows@.map_values(|f: OAuth2FlowInfo| flow_view(f)) =~= scheme_flows(*s));
            r
        },
        SchemeSpec::OAuth2 { flows, description } => {
            let fl = extract_oauth2_flows(flows);
            let detail = flow_types_joined(&fl);
            proof {
                assert(fl@.map_values(|x: OAuth2FlowInfo| flow_view(x).0)
                    =~= flow_types(fl@.map_values(|x: OAuth2FlowInfo| flow_view(x))));
            }
            SecuritySchemeInfo {
                name: owned(name.as_str()),
                scheme_type: owned("oauth2"),
                detail,
                description: copy_opt(description),
                usage_count,
                oauth2_flows: fl,
            }
        },
        SchemeSpec::OpenIdConnect { description } => {
            let r = SecuritySchemeInfo {
                name: owned(name.as_str()),
                scheme_type: owned("openIdConnect"),
                detail: owned("openIdConnect"),
                description: copy_opt(description),
                usage_count,
                oauth2_flows: Vec::new(),
            };
            assert(r.oauth2_flows@.map_values(|f: OAuth2FlowInfo| flow_view(f)) =~= scheme_flows(*s));
            r
        },
    }
}

/// The authentication summary: each declared scheme with its type,
/// detail, description, OAuth2 flows and how many operations use it, and
/// how many operations there are.
pub fn build_auth_model(input: &AuthInput) -> (r: AuthModel)
    ensures
        r.total_operations == input.operations@.len(),
        r.schemes@.map_values(|s: SecuritySchemeInfo| scheme_info_view(s)) == spec_schemes(*input, input.schemes@),
{
    let mut schemes: Vec<SecuritySchemeInfo> = Vec::new();
    let mut i: usize = 0;
    while i < input.schemes.len()
        invariant
            i <= input.schemes.len(),
            schemes@.map_values(|s: SecuritySchemeInfo| scheme_info_view(s))
                == spec_schemes(*input, input.schemes@.take(i as int)),
        decreases input.schemes.len() - i,
    {
        proof { assert(input.schemes@.take(i + 1).drop_last() =~= input.schemes@.take(i as int)); }
        let n = &input.schemes[i];
        match &n.scheme {
            Some(s) => {
                let info = scheme_info(input, &n.name, s);
                let ghost b = schemes@;
                schemes.push(info);
                assert(schemes@.map_values(|s: SecuritySchemeInfo| scheme_info_view(s))
                    =~= b.map_values(|s: SecuritySchemeInfo| scheme_info_view(s)).push(scheme_info_view(info)));
            },
            None => {},
        }
        i = i + 1;
    }
    assert(input.schemes@.take(input.schemes@.len() as int) =~= input.schemes@);
    AuthModel { schemes, total_operations: input.operations.len() }
}

} // verus!
