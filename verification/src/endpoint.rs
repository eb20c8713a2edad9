//! The kinds of upstream endpoint: where requests go, and what is sent along with them.

use crate::ids;
use crate::json::{parsed, printed, rereadable, JsonV, Reading};
use crate::kiro_request::{arn_text, cli_body, cli_text, ide_body, ide_text, inject_profile_arn};
use crate::kiro_request::{inject_ide_thinking_fields, rewrite_cli_body, takes_arn, with_arn};
use crate::kiro_request::try_inject_profile_arn;
use crate::state::opt_text;
use crate::text;
use crate::version::{effective, version_or, VersionCell};
use vstd::prelude::*;

verus! {

/// The name of the endpoint that the command line uses.
pub const CLI_ENDPOINT_NAME: &'static str = "cli";

/// The name of the endpoint that the editor uses.
pub const IDE_ENDPOINT_NAME: &'static str = "ide";

/// What a request goes by: the credentials and the configuration, with their defaults resolved.
#[derive(Debug)]
pub struct RequestContext {
    pub api_region: String,
    pub token: String,
    pub machine_id: String,
    pub system_version: String,
    pub node_version: String,
    pub kiro_version: String,
    /// The editor's latest version.
    pub latest_version: VersionCell,
    /// Whether the token is an API key.
    pub is_api_key: bool,
    /// The profile that is told in a header.
    pub effective_profile_arn: Option<String>,
    /// The profile that is told in the body.
    pub streaming_profile_arn: Option<String>,
}

/// A header: its name and its value.
pub type HeaderV = (Seq<char>, Seq<char>);

/// The headers of a list.
pub open spec fn header_views(headers: Seq<(String, String)>) -> Seq<HeaderV> {
    headers.map_values(|h: (String, String)| (h.0@, h.1@))
}

/// The header that marks an API key, where the token is one.
pub open spec fn key_headers(is_api_key: bool) -> Seq<HeaderV> {
    if is_api_key {
        seq![("tokentype"@, "API_KEY"@)]
    } else {
        Seq::empty()
    }
}

/// The header that names a profile, where there is one.
pub open spec fn profile_headers(arn: Option<Seq<char>>) -> Seq<HeaderV> {
    match arn {
        Some(arn) => seq![("x-amzn-kiro-profile-arn"@, arn)],
        None => Seq::empty(),
    }
}

/// The headers that every request has.
pub open spec fn common_headers(
    x_amz_user_agent: Seq<char>,
    user_agent: Seq<char>,
    host: Seq<char>,
    invocation_id: Seq<char>,
    token: Seq<char>,
) -> Seq<HeaderV> {
    seq![
        ("x-amz-user-agent"@, x_amz_user_agent),
        ("user-agent"@, user_agent),
        ("host"@, host),
        ("amz-sdk-invocation-id"@, invocation_id),
        ("amz-sdk-request"@, "attempt=1; max=3"@),
        ("Authorization"@, "Bearer "@ + token),
    ]
}

fn push_header(headers: &mut Vec<(String, String)>, name: &str, value: &str)
    ensures
        header_views(final(headers)@) == header_views(old(headers)@).push((name@, value@)),
{
    headers.push((name.to_owned(), value.to_owned()));
    assert(header_views(headers@) =~= header_views(old(headers)@).push((name@, value@)));
}

/// Three texts in a row.
fn join(a: &str, b: &str, c: &str) -> (r: String)
    ensures
        r@ == a@ + b@ + c@,
{
    let mut s = a.to_owned();
    s.append(b);
    s.append(c);
    s
}

/// Appends the headers that every request has.
fn push_common(
    headers: &mut Vec<(String, String)>,
    x_amz_user_agent: &str,
    user_agent: &str,
    host: &str,
    invocation_id: &str,
    token: &str,
)
    ensures
        header_views(final(headers)@) == header_views(old(headers)@) + common_headers(
            x_amz_user_agent@,
            user_agent@,
            host@,
            invocation_id@,
            token@,
        ),
{
    push_header(headers, "x-amz-user-agent", x_amz_user_agent);
    push_header(headers, "user-agent", user_agent);
    push_header(headers, "host", host);
    push_header(headers, "amz-sdk-invocation-id", invocation_id);
    push_header(headers, "amz-sdk-request", "attempt=1; max=3");
    let mut bearer = "Bearer ".to_owned();
    bearer.append(token);
    push_header(headers, "Authorization", bearer.as_str());
    assert(header_views(headers@) =~= header_views(old(headers)@) + common_headers(
        x_amz_user_agent@,
        user_agent@,
        host@,
        invocation_id@,
        token@,
    ));
}

/// Appends the header that marks an API key, where the token is one.
fn push_key(headers: &mut Vec<(String, String)>, is_api_key: bool)
    ensures
        header_views(final(headers)@) == header_views(old(headers)@) + key_headers(is_api_key),
{
    if is_api_key {
        push_header(headers, "tokentype", "API_KEY");
    }
    assert(header_views(headers@) =~= header_views(old(headers)@) + key_headers(is_api_key));
}

/// Appends the header that names a profile, where there is one.
fn push_profile(headers: &mut Vec<(String, String)>, arn: &Option<String>)
    ensures
        header_views(final(headers)@) == header_views(old(headers)@) + profile_headers(
            opt_text(*arn),
        ),
{
    if let Some(arn) = arn {
        push_header(headers, "x-amzn-kiro-profile-arn", arn.as_str());
    }
    assert(header_views(headers@) =~= header_views(old(headers)@) + profile_headers(
        opt_text(*arn),
    ));
}

/// The address that web search goes to.
pub open spec fn mcp_address(region: Seq<char>) -> Seq<char> {
    "https://q."@ + region + ".amazonaws.com/mcp"@
}

/// A text holds the given body, with a profile where there is one, and reads back as such.
pub open spec fn holds_body(text: Seq<char>, v: JsonV, arn: Option<Seq<char>>) -> bool {
    rereadable(v, 127) ==> match arn {
        Some(arn) => text == printed(with_arn(v, arn)) && (rereadable(with_arn(v, arn), 127)
            ==> parsed(text) == Reading::Value(with_arn(v, arn))),
        None => parsed(text) == Reading::Value(v),
    }
}

/// The profile of an account: none where it is the one that stands in for a missing profile.
pub open spec fn real_profile(arn: Option<Seq<char>>, placeholder: Seq<char>) -> Option<Seq<char>> {
    if arn == Some(placeholder) {
        None
    } else {
        arn
    }
}

/// The profile to name in a request, where the account has one of its own.
pub fn effective_profile_arn(profile_arn: &Option<String>, placeholder: &str) -> (r: Option<String>)
    ensures
        opt_text(r) == real_profile(opt_text(*profile_arn), placeholder@),
{
    match profile_arn {
        Some(arn) => if text::same(arn.as_str(), placeholder) {
            None
        } else {
            Some(arn.clone())
        },
        None => None,
    }
}

/// The endpoint that the command line uses.
#[derive(Debug)]
pub struct CliEndpoint;

/// The host of the command line's endpoint.
pub open spec fn cli_host(region: Seq<char>) -> Seq<char> {
    "runtime."@ + region + ".kiro.dev"@
}

/// The address of the command line's endpoint.
pub open spec fn cli_address(region: Seq<char>) -> Seq<char> {
    "https://runtime."@ + region + ".kiro.dev/"@
}

/// How the command line names itself to its endpoint.
pub open spec fn cli_agent(system_version: Seq<char>, kiro_version: Seq<char>) -> Seq<char> {
    "aws-sdk-rust/1.3.15 ua/2.1 api/codewhispererstreaming/0.1.16551 os/"@ + system_version
        + " lang/rust/1.92.0 md/appVersion-"@ + kiro_version + " app/AmazonQ-For-CLI"@
}

/// How the command line names itself to the services behind its endpoint.
pub open spec fn cli_amz_agent(system_version: Seq<char>) -> Seq<char> {
    "aws-sdk-rust/1.3.15 ua/2.1 api/codewhispererstreaming/0.1.16551 os/"@ + system_version
        + " lang/rust/1.92.0 m/F app/AmazonQ-For-CLI"@
}

/// The headers that every request of the command line has.
pub open spec fn cli_common(ctx: RequestContext, invocation_id: Seq<char>) -> Seq<HeaderV> {
    common_headers(
        cli_amz_agent(ctx.system_version@),
        cli_agent(ctx.system_version@, ctx.kiro_version@),
        cli_host(ctx.api_region@),
        invocation_id,
        ctx.token@,
    )
}

/// The headers of a request of the command line.
pub open spec fn cli_api_headers(ctx: RequestContext, invocation_id: Seq<char>) -> Seq<HeaderV> {
    seq![
        (
            "x-amz-target"@,
            "AmazonCodeWhispererStreamingService.GenerateAssistantResponse"@,
        ),
        ("x-amzn-codewhisperer-optout"@, "false"@),
    ] + cli_common(ctx, invocation_id) + key_headers(ctx.is_api_key)
}

/// The headers of a search of the command line.
pub open spec fn cli_mcp_headers(ctx: RequestContext, invocation_id: Seq<char>) -> Seq<HeaderV> {
    cli_common(ctx, invocation_id) + profile_headers(opt_text(ctx.effective_profile_arn))
        + key_headers(ctx.is_api_key)
}

impl Default for CliEndpoint {
    fn default() -> (r: CliEndpoint)
        ensures
            r == CliEndpoint,
    {
        CliEndpoint
    }
}

impl CliEndpoint {
    pub fn new() -> (r: CliEndpoint)
        ensures
            r == CliEndpoint,
    {
        CliEndpoint
    }

    pub fn name(&self) -> (r: &'static str)
        ensures
            r@ == "cli"@,
    {
        CLI_ENDPOINT_NAME
    }

    pub fn content_type(&self) -> (r: &'static str)
        ensures
            r@ == "application/x-amz-json-1.0"@,
    {
        "application/x-amz-json-1.0"
    }

    fn api_region<'a>(&self, ctx: &'a RequestContext) -> (r: &'a str)
        ensures
            r@ == ctx.api_region@,
    {
        ctx.api_region.as_str()
    }

    fn host(&self, ctx: &RequestContext) -> (r: String)
        ensures
            r@ == cli_host(ctx.api_region@),
    {
        join("runtime.", self.api_region(ctx), ".kiro.dev")
    }

    fn user_agent(&self, ctx: &RequestContext) -> (r: String)
        ensures
            r@ == cli_agent(ctx.system_version@, ctx.kiro_version@),
    {
        let mut s = join(
            "aws-sdk-rust/1.3.15 ua/2.1 api/codewhispererstreaming/0.1.16551 os/",
            ctx.system_version.as_str(),
            " lang/rust/1.92.0 md/appVersion-",
        );
        s.append(ctx.kiro_version.as_str());
        s.append(" app/AmazonQ-For-CLI");
        s
    }

    fn x_amz_user_agent(&self, ctx: &RequestContext) -> (r: String)
        ensures
            r@ == cli_amz_agent(ctx.system_version@),
    {
        join(
            "aws-sdk-rust/1.3.15 ua/2.1 api/codewhispererstreaming/0.1.16551 os/",
            ctx.system_version.as_str(),
            " lang/rust/1.92.0 m/F app/AmazonQ-For-CLI",
        )
    }

    /// Where requests go.
    pub fn api_url(&self, ctx: &RequestContext) -> (r: String)
        ensures
            r@ == cli_address(ctx.api_region@),
    {
        join("https://runtime.", self.api_region(ctx), ".kiro.dev/")
    }

    /// Where searches go.
    pub fn mcp_url(&self, ctx: &RequestContext) -> (r: String)
        ensures
            r@ == mcp_address(ctx.api_region@),
    {
        join("https://q.", self.api_region(ctx), ".amazonaws.com/mcp")
    }

    /// The headers of a request, with the given invocation id.
    pub fn api_headers(&self, ctx: &RequestContext, invocation_id: &str) -> (r: Vec<
        (String, String),
    >)
        ensures
            header_views(r@) == cli_api_headers(*ctx, invocation_id@),
    {
        let mut headers: Vec<(String, String)> = Vec::new();
        assert(header_views(headers@) =~= Seq::empty());
        push_header(
            &mut headers,
            "x-amz-target",
            "AmazonCodeWhispererStreamingService.GenerateAssistantResponse",
        );
        push_header(&mut headers, "x-amzn-codewhisperer-optout", "false");
        push_common(
            &mut headers,
            self.x_amz_user_agent(ctx).as_str(),
            self.user_agent(ctx).as_str(),
            self.host(ctx).as_str(),
            invocation_id,
            ctx.token.as_str(),
        );
        push_key(&mut headers, ctx.is_api_key);
        assert(header_views(headers@) =~= cli_api_headers(*ctx, invocation_id@));
        headers
    }

    /// The headers of a search, with the given invocation id.
    pub fn mcp_headers(&self, ctx: &RequestContext, invocation_id: &str) -> (r: Vec<
        (String, String),
    >)
        ensures
            header_views(r@) == cli_mcp_headers(*ctx, invocation_id@),
    {
        let mut headers: Vec<(String, String)> = Vec::new();
        assert(header_views(headers@) =~= Seq::empty());
        push_common(
            &mut headers,
            self.x_amz_user_agent(ctx).as_str(),
            self.user_agent(ctx).as_str(),
            self.host(ctx).as_str(),
            invocation_id,
            ctx.token.as_str(),
        );
        push_profile(&mut headers, &ctx.effective_profile_arn);
        push_key(&mut headers, ctx.is_api_key);
        assert(header_views(headers@) =~= cli_mcp_headers(*ctx, invocation_id@));
        headers
    }

    /// The headers of a request, with a new invocation id.
    pub fn decorate_api(&self, ctx: &RequestContext) -> (r: Vec<(String, String)>)
        ensures
            exists|id: Seq<char>| #[trigger]
                ids::uuid_shape(id) && header_views(r@) == cli_api_headers(*ctx, id),
    {
        let id = ids::new_uuid();
        self.api_headers(ctx, id.as_str())
    }

    /// The headers of a search, with a new invocation id.
    pub fn decorate_mcp(&self, ctx: &RequestContext) -> (r: Vec<(String, String)>)
        ensures
            exists|id: Seq<char>| #[trigger]
                ids::uuid_shape(id) && header_views(r@) == cli_mcp_headers(*ctx, id),
    {
        let id = ids::new_uuid();
        self.mcp_headers(ctx, id.as_str())
    }

    /// Makes a request body what the command line would send, with the profile of the
    /// credentials.
    pub fn transform_api_body(&self, body: &str, ctx: &RequestContext) -> (r: String)
        requires
            takes_arn(cli_text(body@), opt_text(ctx.streaming_profile_arn)),
        ensures
            r@ == arn_text(cli_text(body@), opt_text(ctx.streaming_profile_arn)),
            parsed(body@) matches Reading::Value(v) ==> holds_body(
                r@,
                cli_body(v),
                opt_text(ctx.streaming_profile_arn),
            ),
    {
        let body = rewrite_cli_body(body);
        inject_profile_arn(body.as_str(), &ctx.streaming_profile_arn)
    }

    /// Makes a request body what the command line would send; none where it is JSON that cannot
    /// take a profile.
    pub fn try_transform_api_body(&self, body: &str, ctx: &RequestContext) -> (r: Option<String>)
        ensures
            r is Some <==> takes_arn(cli_text(body@), opt_text(ctx.streaming_profile_arn)),
            r matches Some(s) ==> s@ == arn_text(
                cli_text(body@),
                opt_text(ctx.streaming_profile_arn),
            ),
            r matches Some(s) ==> (parsed(body@) matches Reading::Value(v) ==> holds_body(
                s@,
                cli_body(v),
                opt_text(ctx.streaming_profile_arn),
            )),
    {
        let rewritten = rewrite_cli_body(body);
        match try_inject_profile_arn(rewritten.as_str(), &ctx.streaming_profile_arn) {
            Some(_) => Some(self.transform_api_body(body, ctx)),
            None => None,
        }
    }
}

/// The endpoint that the editor uses.
#[derive(Debug)]
pub struct IdeEndpoint;

/// The host of the editor's endpoint.
pub open spec fn ide_host(region: Seq<char>) -> Seq<char> {
    "q."@ + region + ".amazonaws.com"@
}

/// The address of the editor's endpoint.
pub open spec fn ide_address(region: Seq<char>) -> Seq<char> {
    "https://q."@ + region + ".amazonaws.com/generateAssistantResponse"@
}

/// The editor and the machine that it runs on.
pub open spec fn ide_and_machine(ctx: RequestContext) -> Seq<char> {
    version_or(opt_text(ctx.latest_version.latest), ctx.kiro_version@) + "-"@ + ctx.machine_id@
}

/// How the editor names itself to the services behind its endpoint.
pub open spec fn ide_amz_agent(ctx: RequestContext) -> Seq<char> {
    "aws-sdk-js/1.0.34 KiroIDE-"@ + ide_and_machine(ctx)
}

/// How the editor names itself to its endpoint.
pub open spec fn ide_agent(ctx: RequestContext) -> Seq<char> {
    "aws-sdk-js/1.0.34 ua/2.1 os/"@ + ctx.system_version@ + " lang/js md/nodejs#"@
        + ctx.node_version@ + " api/codewhispererstreaming#1.0.34 m/E KiroIDE-"@ + ide_and_machine(
        ctx,
    )
}

/// The headers that every request of the editor has.
pub open spec fn ide_common(ctx: RequestContext, invocation_id: Seq<char>) -> Seq<HeaderV> {
    common_headers(
        ide_amz_agent(ctx),
        ide_agent(ctx),
        ide_host(ctx.api_region@),
        invocation_id,
        ctx.token@,
    )
}

/// The headers of a request of the editor.
pub open spec fn ide_api_headers(ctx: RequestContext, invocation_id: Seq<char>) -> Seq<HeaderV> {
    seq![
        ("x-amzn-codewhisperer-optout"@, "true"@),
        ("x-amzn-kiro-agent-mode"@, "vibe"@),
    ] + ide_common(ctx, invocation_id) + key_headers(ctx.is_api_key)
}

/// The headers of a search of the editor.
pub open spec fn ide_mcp_headers(ctx: RequestContext, invocation_id: Seq<char>) -> Seq<HeaderV> {
    ide_common(ctx, invocation_id) + profile_headers(opt_text(ctx.effective_profile_arn))
        + key_headers(ctx.is_api_key)
}

impl Default for IdeEndpoint {
    fn default() -> (r: IdeEndpoint)
        ensures
            r == IdeEndpoint,
    {
        IdeEndpoint
    }
}

impl IdeEndpoint {
    pub fn new() -> (r: IdeEndpoint)
        ensures
            r == IdeEndpoint,
    {
        IdeEndpoint
    }

    pub fn name(&self) -> (r: &'static str)
        ensures
            r@ == "ide"@,
    {
        IDE_ENDPOINT_NAME
    }

    fn api_region<'a>(&self, ctx: &'a RequestContext) -> (r: &'a str)
        ensures
            r@ == ctx.api_region@,
    {
        ctx.api_region.as_str()
    }

    fn host(&self, ctx: &RequestContext) -> (r: String)
        ensures
            r@ == ide_host(ctx.api_region@),
    {
        join("q.", self.api_region(ctx), ".amazonaws.com")
    }

    fn version_and_machine(&self, ctx: &RequestContext) -> (r: String)
        ensures
            r@ == ide_and_machine(*ctx),
    {
        let version = effective(&ctx.latest_version, ctx.kiro_version.as_str());
        join(version.as_str(), "-", ctx.machine_id.as_str())
    }

    fn x_amz_user_agent(&self, ctx: &RequestContext) -> (r: String)
        ensures
            r@ == ide_amz_agent(*ctx),
    {
        let mut s = "aws-sdk-js/1.0.34 KiroIDE-".to_owned();
        s.append(self.version_and_machine(ctx).as_str());
        s
    }

    fn user_agent(&self, ctx: &RequestContext) -> (r: String)
        ensures
            r@ == ide_agent(*ctx),
    {
        let mut s = join(
            "aws-sdk-js/1.0.34 ua/2.1 os/",
            ctx.system_version.as_str(),
            " lang/js md/nodejs#",
        );
        s.append(ctx.node_version.as_str());
        s.append(" api/codewhispererstreaming#1.0.34 m/E KiroIDE-");
        s.append(self.version_and_machine(ctx).as_str());
        s
    }

    /// Where requests go.
    pub fn api_url(&self, ctx: &RequestContext) -> (r: String)
        ensures
            r@ == ide_address(ctx.api_region@),
    {
        join(
            "https://q.",
            self.api_region(ctx),
            ".amazonaws.com/generateAssistantResponse",
        )
    }

    /// Where searches go.
    pub fn mcp_url(&self, ctx: &RequestContext) -> (r: String)
        ensures
            r@ == mcp_address(ctx.api_region@),
    {
        join("https://q.", self.api_region(ctx), ".amazonaws.com/mcp")
    }

    /// The headers of a request, with the given invocation id.
    pub fn api_headers(&self, ctx: &RequestContext, invocation_id: &str) -> (r: Vec<
        (String, String),
    >)
        ensures
            header_views(r@) == ide_api_headers(*ctx, invocation_id@),
    {
        let mut headers: Vec<(String, String)> = Vec::new();
        assert(header_views(headers@) =~= Seq::empty());
        push_header(&mut headers, "x-amzn-codewhisperer-optout", "true");
        push_header(&mut headers, "x-amzn-kiro-agent-mode", "vibe");
        push_common(
            &mut headers,
            self.x_amz_user_agent(ctx).as_str(),
            self.user_agent(ctx).as_str(),
            self.host(ctx).as_str(),
            invocation_id,
            ctx.token.as_str(),
        );
        push_key(&mut headers, ctx.is_api_key);
        assert(header_views(headers@) =~= ide_api_headers(*ctx, invocation_id@));
        headers
    }

    /// The headers of a search, with the given invocation id.
    pub fn mcp_headers(&self, ctx: &RequestContext, invocation_id: &str) -> (r: Vec<
        (String, String),
    >)
        ensures
            header_views(r@) == ide_mcp_headers(*ctx, invocation_id@),
    {
        let mut headers: Vec<(String, String)> = Vec::new();
        assert(header_views(headers@) =~= Seq::empty());
        push_common(
            &mut headers,
            self.x_amz_user_agent(ctx).as_str(),
            self.user_agent(ctx).as_str(),
            self.host(ctx).as_str(),
            invocation_id,
            ctx.token.as_str(),
        );
        push_profile(&mut headers, &ctx.effective_profile_arn);
        push_key(&mut headers, ctx.is_api_key);
        assert(header_views(headers@) =~= ide_mcp_headers(*ctx, invocation_id@));
        headers
    }

    /// The headers of a request, with a new invocation id.
    pub fn decorate_api(&self, ctx: &RequestContext) -> (r: Vec<(String, String)>)
        ensures
            exists|id: Seq<char>| #[trigger]
                ids::uuid_shape(id) && header_views(r@) == ide_api_headers(*ctx, id),
    {
        let id = ids::new_uuid();
        self.api_headers(ctx, id.as_str())
    }

    /// The headers of a search, with a new invocation id.
    pub fn decorate_mcp(&self, ctx: &RequestContext) -> (r: Vec<(String, String)>)
        ensures
            exists|id: Seq<char>| #[trigger]
                ids::uuid_shape(id) && header_views(r@) == ide_mcp_headers(*ctx, id),
    {
        let id = ids::new_uuid();
        self.mcp_headers(ctx, id.as_str())
    }

    /// Makes a request body what the editor would send, with the profile of the credentials.
    pub fn transform_api_body(&self, body: &str, ctx: &RequestContext) -> (r: String)
        requires
            takes_arn(ide_text(body@), opt_text(ctx.streaming_profile_arn)),
        ensures
            r@ == arn_text(ide_text(body@), opt_text(ctx.streaming_profile_arn)),
            parsed(body@) matches Reading::Value(v) ==> holds_body(
                r@,
                ide_body(v),
                opt_text(ctx.streaming_profile_arn),
            ),
    {
        let body = inject_ide_thinking_fields(body);
        inject_profile_arn(body.as_str(), &ctx.streaming_profile_arn)
    }

    /// Makes a request body what the editor would send; none where it is JSON that cannot take a
    /// profile.
    pub fn try_transform_api_body(&self, body: &str, ctx: &RequestContext) -> (r: Option<String>)
        ensures
            r is Some <==> takes_arn(ide_text(body@), opt_text(ctx.streaming_profile_arn)),
            r matches Some(s) ==> s@ == arn_text(
                ide_text(body@),
                opt_text(ctx.streaming_profile_arn),
            ),
            r matches Some(s) ==> (parsed(body@) matches Reading::Value(v) ==> holds_body(
                s@,
                ide_body(v),
                opt_text(ctx.streaming_profile_arn),
            )),
    {
        let rewritten = inject_ide_thinking_fields(body);
        match try_inject_profile_arn(rewritten.as_str(), &ctx.streaming_profile_arn) {
            Some(_) => Some(self.transform_api_body(body, ctx)),
            None => None,
        }
    }
}

} // verus!
