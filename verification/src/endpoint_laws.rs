//! What every request to an endpoint carries.

use crate::endpoint::{cli_agent, cli_amz_agent, cli_api_headers, common_headers};
use crate::endpoint::{effective_profile_arn, header_views, ide_agent, ide_amz_agent};
use crate::endpoint::{ide_and_machine, ide_api_headers, CliEndpoint, HeaderV, IdeEndpoint};
use crate::endpoint::RequestContext;
use crate::errors::ends_with;
use crate::json::{parsed, printed, rereadable, JsonV, Reading};
use crate::kiro_laws::{adds_thinking, effort_alone, gets_profile, is_cli_body, lemma_cli_body};
use crate::kiro_laws::lemma_ide_body;
use crate::kiro_request::{cli_body, ide_body, with_arn};
use crate::text::{begins, occurs, occurs_at};
use vstd::prelude::*;

verus! {

/// One header of this name is sent, with this value.
pub open spec fn sent(headers: Seq<(String, String)>, name: Seq<char>, value: Seq<char>) -> bool {
    exists|i: int|
        0 <= i < headers.len() && (#[trigger] headers[i]).0@ == name && headers[i].1@ == value
            && forall|j: int|
            0 <= j < headers.len() && (#[trigger] headers[j]).0@ == name ==> j == i
}

/// No header of this name is sent.
pub open spec fn not_sent(headers: Seq<(String, String)>, name: Seq<char>) -> bool {
    forall|i: int| 0 <= i < headers.len() ==> (#[trigger] headers[i]).0@ != name
}

/// The header at position `i` is the only one of its name.
spec fn only_at(headers: Seq<HeaderV>, i: int, name: Seq<char>) -> bool {
    &&& 0 <= i < headers.len()
    &&& headers[i].0 == name
    &&& forall|j: int| 0 <= j < headers.len() && j != i ==> (#[trigger] headers[j]).0 != name
}

proof fn lemma_sent(headers: Seq<(String, String)>, i: int, name: Seq<char>)
    requires
        only_at(header_views(headers), i, name),
    ensures
        sent(headers, name, header_views(headers)[i].1),
{
    let views = header_views(headers);
    assert(views[i] == (headers[i].0@, headers[i].1@));
    assert forall|j: int| 0 <= j < headers.len() && (#[trigger] headers[j]).0@ == name implies j
        == i by {
        assert(views[j] == (headers[j].0@, headers[j].1@));
    }
}

proof fn lemma_not_sent(headers: Seq<(String, String)>, name: Seq<char>)
    requires
        forall|i: int|
            0 <= i < headers.len() ==> (#[trigger] header_views(headers)[i]).0 != name,
    ensures
        not_sent(headers, name),
{
    assert forall|i: int| 0 <= i < headers.len() implies (#[trigger] headers[i]).0@ != name by {
        assert(header_views(headers)[i] == (headers[i].0@, headers[i].1@));
    }
}

proof fn lemma_names()
    ensures
        "x-amz-user-agent"@.len() == 16,
        "user-agent"@.len() == 10,
        "host"@.len() == 4,
        "amz-sdk-invocation-id"@.len() == 21,
        "amz-sdk-request"@.len() == 15,
        "Authorization"@.len() == 13,
        "tokentype"@.len() == 9,
        "x-amzn-kiro-profile-arn"@.len() == 23,
        "x-amz-target"@.len() == 12,
        "x-amzn-codewhisperer-optout"@.len() == 27,
        "x-amzn-kiro-agent-mode"@.len() == 22,
{
    reveal_strlit("x-amz-user-agent");
    reveal_strlit("user-agent");
    reveal_strlit("host");
    reveal_strlit("amz-sdk-invocation-id");
    reveal_strlit("amz-sdk-request");
    reveal_strlit("Authorization");
    reveal_strlit("tokentype");
    reveal_strlit("x-amzn-kiro-profile-arn");
    reveal_strlit("x-amz-target");
    reveal_strlit("x-amzn-codewhisperer-optout");
    reveal_strlit("x-amzn-kiro-agent-mode");
}

/// What every request carries: the token that authorizes it, the host that it goes to, an id of
/// its own, how often it may be tried, and a mark where the token is an API key.
pub open spec fn carries(
    headers: Seq<(String, String)>,
    ctx: RequestContext,
    host: Seq<char>,
    invocation_id: Seq<char>,
) -> bool {
    &&& sent(headers, "Authorization"@, "Bearer "@ + ctx.token@)
    &&& sent(headers, "host"@, host)
    &&& sent(headers, "amz-sdk-invocation-id"@, invocation_id)
    &&& sent(headers, "amz-sdk-request"@, "attempt=1; max=3"@)
    &&& ctx.is_api_key ==> sent(headers, "tokentype"@, "API_KEY"@)
    &&& !ctx.is_api_key ==> not_sent(headers, "tokentype"@)
}

proof fn lemma_carries(
    headers: Seq<(String, String)>,
    ctx: RequestContext,
    at: int,
    agents: (Seq<char>, Seq<char>),
    host: Seq<char>,
    invocation_id: Seq<char>,
)
    requires
        0 <= at,
        header_views(headers).len() == headers.len(),
        at + 6 <= headers.len(),
        header_views(headers).subrange(at, at + 6) == common_headers(
            agents.0,
            agents.1,
            host,
            invocation_id,
            ctx.token@,
        ),
        forall|i: int|
            0 <= i < at ==> (#[trigger] header_views(headers)[i]).0 == "x-amz-target"@
                || header_views(headers)[i].0 == "x-amzn-codewhisperer-optout"@ || header_views(
                headers,
            )[i].0 == "x-amzn-kiro-agent-mode"@,
        forall|i: int|
            at + 6 <= i < headers.len() - (if ctx.is_api_key {
                1int
            } else {
                0
            }) ==> (#[trigger] header_views(headers)[i]).0 == "x-amzn-kiro-profile-arn"@,
        ctx.is_api_key ==> headers.len() > at + 6 && header_views(headers)[headers.len() - 1] == (
            "tokentype"@,
            "API_KEY"@,
        ),
    ensures
        carries(headers, ctx, host, invocation_id),
        sent(headers, "x-amz-user-agent"@, agents.0),
        sent(headers, "user-agent"@, agents.1),
{
    lemma_names();
    let views = header_views(headers);
    let common = views.subrange(at, at + 6);
    assert(views[at] == common[0]);
    assert(views[at + 1] == common[1]);
    assert(views[at + 2] == common[2]);
    assert(views[at + 3] == common[3]);
    assert(views[at + 4] == common[4]);
    assert(views[at + 5] == common[5]);
    lemma_sent(headers, at, "x-amz-user-agent"@);
    lemma_sent(headers, at + 1, "user-agent"@);
    lemma_sent(headers, at + 2, "host"@);
    lemma_sent(headers, at + 3, "amz-sdk-invocation-id"@);
    lemma_sent(headers, at + 4, "amz-sdk-request"@);
    lemma_sent(headers, at + 5, "Authorization"@);
    if ctx.is_api_key {
        lemma_sent(headers, headers.len() - 1, "tokentype"@);
    } else {
        lemma_not_sent(headers, "tokentype"@);
    }
}

/// A request of the command line is authorized by the token, goes to the host that its address
/// names, names the service that is to answer, and allows its content to be used; no profile is
/// told in a header.
pub proof fn law_cli_request_is_authorized(
    e: CliEndpoint,
    ctx: RequestContext,
    invocation_id: &str,
    headers: Vec<(String, String)>,
    address: String,
)
    requires
        call_ensures(CliEndpoint::api_headers, (&e, &ctx, invocation_id), headers),
        call_ensures(CliEndpoint::api_url, (&e, &ctx), address),
    ensures
        ({
            let host = "runtime."@ + ctx.api_region@ + ".kiro.dev"@;
            &&& carries(headers@, ctx, host, invocation_id@)
            &&& address@ == "https://"@ + host + "/"@
            &&& sent(
                headers@,
                "x-amz-target"@,
                "AmazonCodeWhispererStreamingService.GenerateAssistantResponse"@,
            )
            &&& sent(headers@, "x-amzn-codewhisperer-optout"@, "false"@)
            &&& not_sent(headers@, "x-amzn-kiro-profile-arn"@)
        }),
{
    lemma_names();
    let views = header_views(headers@);
    let agents = (
        cli_amz_agent(ctx.system_version@),
        cli_agent(ctx.system_version@, ctx.kiro_version@),
    );
    let host = "runtime."@ + ctx.api_region@ + ".kiro.dev"@;
    assert(views.len() == headers@.len());
    assert(views == cli_api_headers(ctx, invocation_id@));
    assert(views.len() >= 8);
    assert(views.subrange(2, 8) =~= common_headers(
        agents.0,
        agents.1,
        host,
        invocation_id@,
        ctx.token@,
    ));
    lemma_carries(headers@, ctx, 2, agents, host, invocation_id@);
    assert(views[2] == views.subrange(2, 8)[0]);
    assert(views[3] == views.subrange(2, 8)[1]);
    assert(views[4] == views.subrange(2, 8)[2]);
    assert(views[5] == views.subrange(2, 8)[3]);
    assert(views[6] == views.subrange(2, 8)[4]);
    assert(views[7] == views.subrange(2, 8)[5]);
    lemma_sent(headers@, 0, "x-amz-target"@);
    lemma_sent(headers@, 1, "x-amzn-codewhisperer-optout"@);
    lemma_not_sent(headers@, "x-amzn-kiro-profile-arn"@);
    reveal_strlit("https://runtime.");
    reveal_strlit("https://");
    reveal_strlit("runtime.");
    reveal_strlit(".kiro.dev/");
    reveal_strlit(".kiro.dev");
    reveal_strlit("/");
    assert(address@ =~= "https://"@ + host + "/"@);
}

/// A request of the editor is authorized by the token, goes to the host that its address names,
/// does not allow its content to be used, and names the mode of the agent; no profile is told in a
/// header.
pub proof fn law_ide_request_is_authorized(
    e: IdeEndpoint,
    ctx: RequestContext,
    invocation_id: &str,
    headers: Vec<(String, String)>,
    address: String,
)
    requires
        call_ensures(IdeEndpoint::api_headers, (&e, &ctx, invocation_id), headers),
        call_ensures(IdeEndpoint::api_url, (&e, &ctx), address),
    ensures
        ({
            let host = "q."@ + ctx.api_region@ + ".amazonaws.com"@;
            &&& carries(headers@, ctx, host, invocation_id@)
            &&& address@ == "https://"@ + host + "/generateAssistantResponse"@
            &&& sent(headers@, "x-amzn-codewhisperer-optout"@, "true"@)
            &&& sent(headers@, "x-amzn-kiro-agent-mode"@, "vibe"@)
            &&& not_sent(headers@, "x-amzn-kiro-profile-arn"@)
        }),
{
    lemma_names();
    let views = header_views(headers@);
    let agents = (ide_amz_agent(ctx), ide_agent(ctx));
    let host = "q."@ + ctx.api_region@ + ".amazonaws.com"@;
    assert(views.len() == headers@.len());
    assert(views == ide_api_headers(ctx, invocation_id@));
    assert(views.len() >= 8);
    assert(views.subrange(2, 8) =~= common_headers(
        agents.0,
        agents.1,
        host,
        invocation_id@,
        ctx.token@,
    ));
    lemma_carries(headers@, ctx, 2, agents, host, invocation_id@);
    assert(views[2] == views.subrange(2, 8)[0]);
    assert(views[3] == views.subrange(2, 8)[1]);
    assert(views[4] == views.subrange(2, 8)[2]);
    assert(views[5] == views.subrange(2, 8)[3]);
    assert(views[6] == views.subrange(2, 8)[4]);
    assert(views[7] == views.subrange(2, 8)[5]);
    lemma_sent(headers@, 0, "x-amzn-codewhisperer-optout"@);
    lemma_sent(headers@, 1, "x-amzn-kiro-agent-mode"@);
    lemma_not_sent(headers@, "x-amzn-kiro-profile-arn"@);
    reveal_strlit("https://q.");
    reveal_strlit("https://");
    reveal_strlit("q.");
    reveal_strlit(".amazonaws.com/generateAssistantResponse");
    reveal_strlit(".amazonaws.com");
    reveal_strlit("/generateAssistantResponse");
    assert(address@ =~= "https://"@ + host + "/generateAssistantResponse"@);
}

/// A profile is told in a header where there is one, and in none where there is not.
pub open spec fn tells_profile(headers: Seq<(String, String)>, ctx: RequestContext) -> bool {
    match ctx.effective_profile_arn {
        Some(arn) => sent(headers, "x-amzn-kiro-profile-arn"@, arn@),
        None => not_sent(headers, "x-amzn-kiro-profile-arn"@),
    }
}

proof fn lemma_search_headers(
    headers: Seq<(String, String)>,
    ctx: RequestContext,
    agents: (Seq<char>, Seq<char>),
    host: Seq<char>,
    invocation_id: Seq<char>,
)
    requires
        header_views(headers) == common_headers(
            agents.0,
            agents.1,
            host,
            invocation_id,
            ctx.token@,
        ) + crate::endpoint::profile_headers(crate::state::opt_text(ctx.effective_profile_arn))
            + crate::endpoint::key_headers(ctx.is_api_key),
    ensures
        carries(headers, ctx, host, invocation_id),
        tells_profile(headers, ctx),
{
    lemma_names();
    let views = header_views(headers);
    let common = common_headers(agents.0, agents.1, host, invocation_id, ctx.token@);
    assert(views.subrange(0, 6) =~= common);
    lemma_carries(headers, ctx, 0, agents, host, invocation_id);
    assert(views[0] == common[0]);
    assert(views[1] == common[1]);
    assert(views[2] == common[2]);
    assert(views[3] == common[3]);
    assert(views[4] == common[4]);
    assert(views[5] == common[5]);
    if ctx.effective_profile_arn is Some {
        lemma_sent(headers, 6, "x-amzn-kiro-profile-arn"@);
    } else {
        lemma_not_sent(headers, "x-amzn-kiro-profile-arn"@);
    }
}

/// A search is authorized as a request is, of the command line and of the editor, and tells the
/// profile in a header. Both go to the same address.
pub proof fn law_search_is_authorized(
    cli: CliEndpoint,
    ide: IdeEndpoint,
    ctx: RequestContext,
    invocation_id: &str,
    cli_headers: Vec<(String, String)>,
    ide_headers: Vec<(String, String)>,
    cli_url: String,
    ide_url: String,
)
    requires
        call_ensures(CliEndpoint::mcp_headers, (&cli, &ctx, invocation_id), cli_headers),
        call_ensures(IdeEndpoint::mcp_headers, (&ide, &ctx, invocation_id), ide_headers),
        call_ensures(CliEndpoint::mcp_url, (&cli, &ctx), cli_url),
        call_ensures(IdeEndpoint::mcp_url, (&ide, &ctx), ide_url),
    ensures
        carries(
            cli_headers@,
            ctx,
            "runtime."@ + ctx.api_region@ + ".kiro.dev"@,
            invocation_id@,
        ),
        carries(
            ide_headers@,
            ctx,
            "q."@ + ctx.api_region@ + ".amazonaws.com"@,
            invocation_id@,
        ),
        tells_profile(cli_headers@, ctx),
        tells_profile(ide_headers@, ctx),
        cli_url@ == ide_url@,
        ide_url@ == "https://q."@ + ctx.api_region@ + ".amazonaws.com/mcp"@,
{
    lemma_search_headers(
        cli_headers@,
        ctx,
        (cli_amz_agent(ctx.system_version@), cli_agent(ctx.system_version@, ctx.kiro_version@)),
        "runtime."@ + ctx.api_region@ + ".kiro.dev"@,
        invocation_id@,
    );
    lemma_search_headers(
        ide_headers@,
        ctx,
        (ide_amz_agent(ctx), ide_agent(ctx)),
        "q."@ + ctx.api_region@ + ".amazonaws.com"@,
        invocation_id@,
    );
}

/// The editor and the machine that it runs on: the latest version that is known, or else the one
/// that is set up.
pub open spec fn editor(ctx: RequestContext) -> Seq<char> {
    (match ctx.latest_version.latest {
        Some(version) => version@,
        None => ctx.kiro_version@,
    }) + "-"@ + ctx.machine_id@
}

/// Header `name` is sent with a value that begins and ends as given, and has `part` in it.
pub open spec fn names_itself(
    headers: Seq<(String, String)>,
    name: Seq<char>,
    begin: Seq<char>,
    part: Seq<char>,
    end: Seq<char>,
) -> bool {
    exists|agent: Seq<char>| #[trigger]
        sent(headers, name, agent) && begins(agent, begin) && occurs(agent, part) && ends_with(
            agent,
            end,
        )
}

proof fn lemma_parts(a: Seq<char>, b: Seq<char>, c: Seq<char>)
    ensures
        occurs(a + b + c, b),
        begins(a + b + c, a),
        ends_with(a + b + c, c),
{
    let s = a + b + c;
    assert(s.subrange(a.len() as int, (a.len() + b.len()) as int) =~= b);
    assert(occurs_at(s, b, a.len() as int));
    assert(s.take(a.len() as int) =~= a);
    assert(s.skip(s.len() - c.len()) =~= c);
}

/// The editor names itself by its version and by the machine that it runs on, to its endpoint with
/// the system and its runtime as well.
pub proof fn law_ide_names_itself(
    e: IdeEndpoint,
    ctx: RequestContext,
    invocation_id: &str,
    headers: Vec<(String, String)>,
)
    requires
        call_ensures(IdeEndpoint::api_headers, (&e, &ctx, invocation_id), headers),
    ensures
        sent(headers@, "x-amz-user-agent"@, "aws-sdk-js/1.0.34 KiroIDE-"@ + editor(ctx)),
        names_itself(
            headers@,
            "user-agent"@,
            "aws-sdk-js/1.0.34 ua/2.1 os/"@ + ctx.system_version@,
            "nodejs#"@ + ctx.node_version@,
            "KiroIDE-"@ + editor(ctx),
        ),
{
    lemma_names();
    let views = header_views(headers@);
    let agents = (ide_amz_agent(ctx), ide_agent(ctx));
    let host = "q."@ + ctx.api_region@ + ".amazonaws.com"@;
    assert(views.len() == headers@.len());
    assert(views == ide_api_headers(ctx, invocation_id@));
    assert(views.len() >= 8);
    assert(views.subrange(2, 8) =~= common_headers(
        agents.0,
        agents.1,
        host,
        invocation_id@,
        ctx.token@,
    ));
    lemma_carries(headers@, ctx, 2, agents, host, invocation_id@);
    assert(ide_and_machine(ctx) == editor(ctx));
    reveal_strlit(" lang/js md/nodejs#");
    reveal_strlit(" lang/js md/");
    reveal_strlit("nodejs#");
    reveal_strlit(" api/codewhispererstreaming#1.0.34 m/E KiroIDE-");
    reveal_strlit(" api/codewhispererstreaming#1.0.34 m/E ");
    reveal_strlit("KiroIDE-");
    let agent = agents.1;
    let a = "aws-sdk-js/1.0.34 ua/2.1 os/"@ + ctx.system_version@;
    let b = "nodejs#"@ + ctx.node_version@;
    let c = "KiroIDE-"@ + editor(ctx);
    let m = " lang/js md/"@;
    let n = " api/codewhispererstreaming#1.0.34 m/E "@;
    assert(" lang/js md/nodejs#"@ =~= m + "nodejs#"@);
    assert(" api/codewhispererstreaming#1.0.34 m/E KiroIDE-"@ =~= n + "KiroIDE-"@);
    lemma_parts(a, m + b + n, c);
    assert(agent =~= a + (m + b + n) + c);
    lemma_parts(a + m, b, n + c);
    assert(agent =~= (a + m) + b + (n + c));
    assert(sent(headers@, "user-agent"@, agent));
}

/// The command line names itself by the system that it runs on and, to its endpoint, by its
/// version.
pub proof fn law_cli_names_itself(
    e: CliEndpoint,
    ctx: RequestContext,
    invocation_id: &str,
    headers: Vec<(String, String)>,
)
    requires
        call_ensures(CliEndpoint::api_headers, (&e, &ctx, invocation_id), headers),
    ensures
        names_itself(
            headers@,
            "user-agent"@,
            "aws-sdk-rust/1.3.15 "@,
            "os/"@ + ctx.system_version@,
            "appVersion-"@ + ctx.kiro_version@ + " app/AmazonQ-For-CLI"@,
        ),
        names_itself(
            headers@,
            "x-amz-user-agent"@,
            "aws-sdk-rust/1.3.15 "@,
            "os/"@ + ctx.system_version@,
            " m/F app/AmazonQ-For-CLI"@,
        ),
{
    lemma_names();
    let views = header_views(headers@);
    let agents = (
        cli_amz_agent(ctx.system_version@),
        cli_agent(ctx.system_version@, ctx.kiro_version@),
    );
    let host = "runtime."@ + ctx.api_region@ + ".kiro.dev"@;
    assert(views.len() == headers@.len());
    assert(views == cli_api_headers(ctx, invocation_id@));
    assert(views.len() >= 8);
    assert(views.subrange(2, 8) =~= common_headers(
        agents.0,
        agents.1,
        host,
        invocation_id@,
        ctx.token@,
    ));
    lemma_carries(headers@, ctx, 2, agents, host, invocation_id@);
    reveal_strlit("aws-sdk-rust/1.3.15 ua/2.1 api/codewhispererstreaming/0.1.16551 os/");
    reveal_strlit("aws-sdk-rust/1.3.15 ");
    reveal_strlit("ua/2.1 api/codewhispererstreaming/0.1.16551 ");
    reveal_strlit("os/");
    reveal_strlit(" lang/rust/1.92.0 md/appVersion-");
    reveal_strlit(" lang/rust/1.92.0 md/");
    reveal_strlit("appVersion-");
    reveal_strlit(" lang/rust/1.92.0 m/F app/AmazonQ-For-CLI");
    reveal_strlit(" lang/rust/1.92.0");
    reveal_strlit(" m/F app/AmazonQ-For-CLI");
    let a = "aws-sdk-rust/1.3.15 "@;
    let u = "ua/2.1 api/codewhispererstreaming/0.1.16551 "@;
    let b = "os/"@ + ctx.system_version@;
    let m = " lang/rust/1.92.0 md/"@;
    let c = "appVersion-"@ + ctx.kiro_version@ + " app/AmazonQ-For-CLI"@;
    assert("aws-sdk-rust/1.3.15 ua/2.1 api/codewhispererstreaming/0.1.16551 os/"@ =~= a + u
        + "os/"@);
    assert(" lang/rust/1.92.0 md/appVersion-"@ =~= m + "appVersion-"@);
    lemma_parts(a, u + b + m, c);
    assert(agents.1 =~= a + (u + b + m) + c);
    lemma_parts(a + u, b, m + c);
    assert(agents.1 =~= (a + u) + b + (m + c));
    let m2 = " lang/rust/1.92.0"@;
    let c2 = " m/F app/AmazonQ-For-CLI"@;
    assert(" lang/rust/1.92.0 m/F app/AmazonQ-For-CLI"@ =~= m2 + c2);
    lemma_parts(a, u + b + m2, c2);
    assert(agents.0 =~= a + (u + b + m2) + c2);
    lemma_parts(a + u, b, m2 + c2);
    assert(agents.0 =~= (a + u) + b + (m2 + c2));
    assert(sent(headers@, "user-agent"@, agents.1));
    assert(sent(headers@, "x-amz-user-agent"@, agents.0));
}

/// The profile of an account is named as it is, unless it only stands in for a missing one.
pub proof fn law_stand_in_profile_is_not_named(
    profile_arn: Option<String>,
    placeholder: &str,
    r: Option<String>,
)
    requires
        call_ensures(effective_profile_arn, (&profile_arn, placeholder), r),
    ensures
        r is Some <==> profile_arn is Some && profile_arn->0@ != placeholder@,
        r matches Some(arn) ==> (profile_arn matches Some(given) && arn@ == given@),
{
}

/// `text` is the request body `w`, with the profile of the credentials where they have one.
pub open spec fn holds(text: Seq<char>, w: JsonV, arn: Option<String>) -> bool {
    match arn {
        Some(arn) => exists|y: JsonV| gets_profile(w, y, arn@) && text == #[trigger] printed(y),
        None => parsed(text) == Reading::Value(w),
    }
}

/// A request of the command line is the body that it was given, marked as coming from the command
/// line and without a setting for thinking, with the profile of the credentials. A text that is no
/// JSON is sent as it is.
///
/// Bodies that would not be read back as they were written are left out.
pub proof fn law_cli_sends_the_body(e: CliEndpoint, body: &str, ctx: RequestContext, r: String)
    requires
        call_ensures(CliEndpoint::transform_api_body, (&e, body, &ctx), r),
    ensures
        parsed(body@) is Fault ==> r@ == body@,
        parsed(body@) matches Reading::Value(v) ==> exists|w: JsonV| #[trigger]
            is_cli_body(v, w) && (rereadable(w, 127) ==> holds(r@, w, ctx.streaming_profile_arn)),
{
    if let Reading::Value(v) = parsed(body@) {
        lemma_cli_body(v);
        let w = cli_body(v);
        if let Some(arn) = ctx.streaming_profile_arn {
            assert(gets_profile(w, with_arn(w, arn@), arn@));
            if rereadable(w, 127) {
                assert(r@ == printed(with_arn(w, arn@)));
            }
        }
        assert(is_cli_body(v, w));
    }
}

/// A request of the editor is the body that it was given, with adaptive thinking where it sets a
/// level of effort alone, and with the profile of the credentials. A text that is no JSON is sent
/// as it is.
///
/// Bodies that would not be read back as they were written are left out.
pub proof fn law_ide_sends_the_body(e: IdeEndpoint, body: &str, ctx: RequestContext, r: String)
    requires
        call_ensures(IdeEndpoint::transform_api_body, (&e, body, &ctx), r),
    ensures
        parsed(body@) is Fault ==> r@ == body@,
        parsed(body@) matches Reading::Value(v) ==> exists|w: JsonV|
            (if effort_alone(v) {
                adds_thinking(v, w)
            } else {
                w == v
            }) && (rereadable(w, 127) ==> #[trigger] holds(r@, w, ctx.streaming_profile_arn)),
{
    if let Reading::Value(v) = parsed(body@) {
        lemma_ide_body(v);
        let w = ide_body(v);
        if let Some(arn) = ctx.streaming_profile_arn {
            assert(gets_profile(w, with_arn(w, arn@), arn@));
            if rereadable(w, 127) {
                assert(r@ == printed(with_arn(w, arn@)));
            }
        }
        assert(rereadable(w, 127) ==> holds(r@, w, ctx.streaming_profile_arn));
        assert(holds(r@, w, ctx.streaming_profile_arn) || !rereadable(w, 127));
    }
}

} // verus!
