//! The page that catches the answer of a login in the browser, and what becomes of it.
use vstd::prelude::*;
use crate::{digits, text};
use super::oauth::{OAuthLoginResult, OAUTH_LOOPBACK_PORT, OAUTH_REDIRECT_URI};

verus! {

broadcast use vstd::string::group_string_axioms;

/// How many seconds without a request end the listening.
pub const IDLE_TIMEOUT_SECS: i64 = 300;

/// What is told when a login is over.
pub struct OAuthLoginDoneEvent {
    pub ok: bool,
    pub message: String,
    /// The name of the account that was added.
    pub account: Option<String>,
    /// The user of the account that was added.
    pub user_id: Option<String>,
}

/// The model of what is told when a login is over.
#[verifier::ext_equal]
pub struct DoneV {
    pub ok: bool,
    pub message: Seq<char>,
    pub account: Option<Seq<char>>,
    pub user_id: Option<Seq<char>>,
}

impl View for OAuthLoginDoneEvent {
    type V = DoneV;

    open spec fn view(&self) -> DoneV {
        DoneV {
            ok: self.ok,
            message: self.message@,
            account: text::opt_text(self.account),
            user_id: text::opt_text(self.user_id),
        }
    }
}

/// How a login ended.
pub enum LoginEnd {
    /// It gave an account.
    Added(OAuthLoginResult),
    /// It was refused.
    Refused(String),
    /// It broke off.
    Broken(String),
}

/// What is told of the end of a login.
pub open spec fn told(end: LoginEnd) -> DoneV {
    match end {
        LoginEnd::Added(r) => DoneV {
            ok: true,
            message: "账号 ["@ + r.name@ + "] 登录成功"@,
            account: Some(r.name@),
            user_id: Some(r.user_id@),
        },
        LoginEnd::Refused(e) => DoneV { ok: false, message: e@, account: None, user_id: None },
        LoginEnd::Broken(e) => DoneV {
            ok: false,
            message: "登录任务执行异常: "@ + e@,
            account: None,
            user_id: None,
        },
    }
}

/// What is told of the end of a login.
pub fn login_done(end: &LoginEnd) -> (r: OAuthLoginDoneEvent)
    ensures
        r@ == told(*end),
{
    match end {
        LoginEnd::Added(x) => OAuthLoginDoneEvent {
            ok: true,
            message: text::cat3("账号 [", x.name.as_str(), "] 登录成功"),
            account: Some(x.name.clone()),
            user_id: Some(x.user_id.clone()),
        },
        LoginEnd::Refused(e) => OAuthLoginDoneEvent { ok: false, message: e.clone(), account: None, user_id: None },
        LoginEnd::Broken(e) => OAuthLoginDoneEvent {
            ok: false,
            message: text::cat("登录任务执行异常: ", e.as_str()),
            account: None,
            user_id: None,
        },
    }
}

/// The whole address of an answer, by its path and query.
pub open spec fn answer_url(path_query: Option<Seq<char>>) -> Seq<char> {
    "http://127.0.0.1:"@ + digits::decimal(OAUTH_LOOPBACK_PORT as int) + (match path_query {
        Some(p) => p,
        None => "/authorize"@,
    })
}

/// The whole address of an answer, by its path and query.
pub fn callback_url(path_query: Option<&str>) -> (r: String)
    ensures
        r@ == answer_url(text::opt_str(path_query)),
{
    let port = digits::number(OAUTH_LOOPBACK_PORT as u64);
    let tail = match path_query {
        Some(p) => p,
        None => "/authorize",
    };
    text::cat3("http://127.0.0.1:", port.as_str(), tail)
}

/// What a character is in a page's text.
pub open spec fn entity(c: char) -> Seq<char> {
    if c == '&' {
        "&amp;"@
    } else if c == '<' {
        "&lt;"@
    } else if c == '>' {
        "&gt;"@
    } else if c == '"' {
        "&quot;"@
    } else if c == '\'' {
        "&#39;"@
    } else {
        seq![c]
    }
}

/// A text as it stands in a page.
pub open spec fn escaped(s: Seq<char>) -> Seq<char>
    decreases s.len(),
{
    if s.len() == 0 {
        Seq::empty()
    } else {
        escaped(s.drop_last()) + entity(s.last())
    }
}

/// A text as it stands in a page.
pub fn esc(s: &str) -> (r: String)
    ensures
        r@ == escaped(s@),
{
    let v = text::chars_of(s);
    let mut out = String::new();
    let mut i: usize = 0;
    assert(out@ =~= Seq::empty());
    while i < v.len()
        invariant
            i <= v@.len(),
            v@ == s@,
            out@ == escaped(s@.take(i as int)),
        decreases v@.len() - i,
    {
        assert(s@.take(i + 1).drop_last() =~= s@.take(i as int));
        let ghost before = out@;
        let c = v[i];
        if c == '&' {
            out.append("&amp;");
        } else if c == '<' {
            out.append("&lt;");
        } else if c == '>' {
            out.append("&gt;");
        } else if c == '"' {
            out.append("&quot;");
        } else if c == '\'' {
            out.append("&#39;");
        } else {
            out.push(c);
            assert(out@ =~= before + seq![c]);
        }
        i += 1;
    }
    assert(s@.take(s@.len() as int) =~= s@);
    out
}

/// Whether a text holds nothing that a page would take for markup.
pub open spec fn is_plain(s: Seq<char>) -> bool {
    forall|i: int| 0 <= i < s.len() ==> (#[trigger] s[i]) != '<' && s[i] != '>' && s[i] != '"' && s[i] != '\''
}

/// Whatever a text holds, it brings no markup into a page.
pub proof fn escaped_text_is_plain(s: Seq<char>)
    ensures
        is_plain(escaped(s)),
    decreases s.len(),
{
    reveal_strlit("&amp;");
    reveal_strlit("&lt;");
    reveal_strlit("&gt;");
    reveal_strlit("&quot;");
    reveal_strlit("&#39;");
    if s.len() > 0 {
        escaped_text_is_plain(s.drop_last());
        let a = escaped(s.drop_last());
        let b = entity(s.last());
        assert(is_plain(b));
        assert forall|i: int| 0 <= i < (a + b).len() implies (#[trigger] (a + b)[i]) != '<' && (a + b)[i] != '>' && (a
            + b)[i] != '"' && (a + b)[i] != '\'' by {
            if i < a.len() {
                assert((a + b)[i] == a[i]);
            } else {
                assert((a + b)[i] == b[i - a.len()]);
            }
        }
    }
}

/// What stands in an escaped text's place for one without special characters: the text itself.
pub proof fn ordinary_text_stays(s: Seq<char>)
    requires
        is_plain(s),
        forall|i: int| 0 <= i < s.len() ==> (#[trigger] s[i]) != '&',
    ensures
        escaped(s) == s,
    decreases s.len(),
{
    if s.len() > 0 {
        let front = s.drop_last();
        assert forall|i: int| 0 <= i < front.len() implies (#[trigger] front[i]) != '&' && front[i] != '<' && front[i]
            != '>' && front[i] != '"' && front[i] != '\'' by {
            assert(front[i] == s[i]);
        }
        ordinary_text_stays(front);
        assert(s.last() == s[s.len() - 1]);
        assert(front + seq![s.last()] =~= s);
    } else {
        assert(s =~= Seq::empty());
    }
}

/// The page up to the colour of its sign.
pub const PAGE_TOP: &'static str = "<!DOCTYPE html><html lang=\"zh-CN\"><head><meta charset=\"utf-8\"><meta name=\"viewport\" content=\"width=device-width, initial-scale=1\"><title>Trae 账号登录</title><style>body { font-family: system-ui, -apple-system, 'Segoe UI', 'Microsoft YaHei', sans-serif; display: flex; align-items: center; justify-content: center; min-height: 100vh; margin: 0; background: #f6f7f9; }.card { background: #fff; border-radius: 12px; padding: 40px 48px; max-width: 560px; box-shadow: 0 4px 16px rgba(0,0,0,.08); text-align: center; }.icon { width: 56px; height: 56px; border-radius: 50%; color: #fff; font-size: 28px; line-height: 56px; margin: 0 auto 16px; background: ";

/// The page from there to its sign.
pub const PAGE_STYLE: &'static str = "; }h1 { font-size: 20px; margin: 0 0 12px; }p { color: #555; line-height: 1.7; margin: 6px 0; }.url { word-break: break-all; background: #f1f5f9; border-radius: 6px; padding: 8px 12px; font-size: 12px; color: #334155; text-align: left; }</style></head><body><div class=\"card\"><div class=\"icon\">";

/// The body of the page.
pub open spec fn page_body(ok: bool, message: Seq<char>, url: Seq<char>) -> Seq<char> {
    if ok {
        "<p>"@ + escaped(message) + "</p><p>账号已添加到 AIWorkAssistant，可关闭此页面返回应用。</p>"@
    } else {
        "<p>"@ + escaped(message)
            + "</p><p>可改用手动兜底：复制浏览器<b>地址栏中的完整 URL</b>，回到 AIWorkAssistant 的 OAuth 登录窗口粘贴提交。</p><p class=\"url\">"@
            + escaped(url) + "</p>"@
    }
}

/// The page that is shown at the end of a login.
pub open spec fn page(ok: bool, message: Seq<char>, url: Seq<char>) -> Seq<char> {
    PAGE_TOP@ + (if ok {
        "#16a34a"@
    } else {
        "#dc2626"@
    }) + PAGE_STYLE@ + (if ok {
        "✓"@
    } else {
        "✕"@
    }) + "</div><h1>"@ + (if ok {
        "登录成功"@
    } else {
        "登录失败"@
    }) + "</h1>"@ + page_body(ok, message, url) + "</div></body></html>"@
}

/// The page that is shown at the end of a login. The message and the address are shown as text.
pub fn html_response(ok: bool, message: &str, callback_url: &str) -> (r: String)
    ensures
        r@ == page(ok, message@, callback_url@),
{
    let note = esc(message);
    let body = if ok {
        text::cat3("<p>", note.as_str(), "</p><p>账号已添加到 AIWorkAssistant，可关闭此页面返回应用。</p>")
    } else {
        let head = text::cat3(
            "<p>",
            note.as_str(),
            "</p><p>可改用手动兜底：复制浏览器<b>地址栏中的完整 URL</b>，回到 AIWorkAssistant 的 OAuth 登录窗口粘贴提交。</p><p class=\"url\">",
        );
        let url = esc(callback_url);
        text::cat3(head.as_str(), url.as_str(), "</p>")
    };
    let (icon, title, color) = if ok {
        ("✓", "登录成功", "#16a34a")
    } else {
        ("✕", "登录失败", "#dc2626")
    };
    let mut out = String::new();
    out.append(PAGE_TOP);
    assert(out@ =~= PAGE_TOP@);
    out.append(color);
    out.append(PAGE_STYLE);
    out.append(icon);
    out.append("</div><h1>");
    out.append(title);
    out.append("</h1>");
    out.append(body.as_str());
    out.append("</div></body></html>");
    out
}

/// Whether a time without requests has been too long.
pub open spec fn is_idle(now: int, last_active: int) -> bool {
    now - last_active >= IDLE_TIMEOUT_SECS
}

/// Whether a time without requests has been too long.
pub fn idle(now: i64, last_active: i64) -> (r: bool)
    requires
        i64::MIN <= now - last_active <= i64::MAX,
    ensures
        r == is_idle(now as int, last_active as int),
{
    now - last_active >= IDLE_TIMEOUT_SECS
}

/// The address to listen at.
pub fn listen_address() -> (r: String)
    ensures
        r@ == "127.0.0.1:"@ + digits::decimal(OAUTH_LOOPBACK_PORT as int),
{
    let port = digits::number(OAUTH_LOOPBACK_PORT as u64);
    text::cat("127.0.0.1:", port.as_str())
}

/// Why listening could not start.
pub open spec fn listen_failure(in_use: bool, error: Seq<char>) -> Seq<char> {
    if in_use {
        "OAuth 回调端口 "@ + digits::decimal(OAUTH_LOOPBACK_PORT as int) + " 已被其他程序占用（"@ + error
            + "），自动收尾不可用；请在下一步改用手动粘贴回调 URL 兜底"@
    } else {
        "OAuth 回调监听启动失败: "@ + error
    }
}

/// Why listening could not start.
pub fn listen_error(in_use: bool, error: &str) -> (r: String)
    ensures
        r@ == listen_failure(in_use, error@),
{
    if in_use {
        let port = digits::number(OAUTH_LOOPBACK_PORT as u64);
        let head = text::cat3("OAuth 回调端口 ", port.as_str(), " 已被其他程序占用（");
        text::cat3(head.as_str(), error, "），自动收尾不可用；请在下一步改用手动粘贴回调 URL 兜底")
    } else {
        text::cat("OAuth 回调监听启动失败: ", error)
    }
}

/// The line that says that listening has started.
pub fn started_line() -> (r: String)
    ensures
        r@ == "[OAuth] 回环监听已启动 "@ + ("127.0.0.1:"@ + digits::decimal(OAUTH_LOOPBACK_PORT as int)) + "（空闲 "@
            + digits::decimal(IDLE_TIMEOUT_SECS as int) + " 秒自动关闭，redirect_uri="@ + OAUTH_REDIRECT_URI@ + "）"@,
{
    let addr = listen_address();
    let secs = digits::signed_number(IDLE_TIMEOUT_SECS);
    let a = text::cat3("[OAuth] 回环监听已启动 ", addr.as_str(), "（空闲 ");
    let b = text::cat3(a.as_str(), secs.as_str(), " 秒自动关闭，redirect_uri=");
    text::cat3(b.as_str(), OAUTH_REDIRECT_URI, "）")
}

/// What is told of a login: that it succeeded and of whom, or why it did not.
pub proof fn logins_are_told(r: OAuthLoginResult, e: String)
    ensures
        told(LoginEnd::Added(r)).ok,
        told(LoginEnd::Added(r)).message == "账号 ["@ + r.name@ + "] 登录成功"@,
        told(LoginEnd::Added(r)).account == Some(r.name@),
        told(LoginEnd::Added(r)).user_id == Some(r.user_id@),
        !told(LoginEnd::Refused(e)).ok && told(LoginEnd::Refused(e)).message == e@,
        !told(LoginEnd::Broken(e)).ok && told(LoginEnd::Broken(e)).message == "登录任务执行异常: "@ + e@,
        told(LoginEnd::Refused(e)).account is None && told(LoginEnd::Refused(e)).user_id is None,
        told(LoginEnd::Broken(e)).account is None && told(LoginEnd::Broken(e)).user_id is None,
{
}

/// A text is escaped character by character, the five that mean something each by its own name.
pub proof fn characters_are_escaped_by_name(a: Seq<char>, b: Seq<char>, c: char)
    ensures
        escaped(a + b) == escaped(a) + escaped(b),
        escaped(seq!['&']) == "&amp;"@,
        escaped(seq!['<']) == "&lt;"@,
        escaped(seq!['>']) == "&gt;"@,
        escaped(seq!['"']) == "&quot;"@,
        escaped(seq!['\'']) == "&#39;"@,
        c != '&' && c != '<' && c != '>' && c != '"' && c != '\'' ==> escaped(seq![c]) == seq![c],
    decreases b.len(),
{
    reveal_with_fuel(escaped, 2);
    lemma_escaped_one('&');
    lemma_escaped_one('<');
    lemma_escaped_one('>');
    lemma_escaped_one('"');
    lemma_escaped_one('\'');
    lemma_escaped_one(c);
    if b.len() == 0 {
        assert(a + b =~= a);
        assert(escaped(a) + escaped(b) =~= escaped(a));
    } else {
        characters_are_escaped_by_name(a, b.drop_last(), c);
        assert((a + b).drop_last() =~= a + b.drop_last());
        assert((a + b).last() == b.last());
        assert(escaped(a + b) =~= escaped(a) + escaped(b));
    }
}

proof fn lemma_escaped_one(c: char)
    ensures
        escaped(seq![c]) == entity(c),
{
    reveal_with_fuel(escaped, 2);
    assert(seq![c].drop_last() =~= Seq::<char>::empty());
    assert(Seq::<char>::empty() + entity(c) =~= entity(c));
}

/// The page says whether the login succeeded and shows the message; where it did not, it shows the address
/// to paste too.
pub proof fn pages_show_the_message(message: Seq<char>, url: Seq<char>)
    ensures
        page_body(true, message, url) == "<p>"@ + escaped(message)
            + "</p><p>账号已添加到 AIWorkAssistant，可关闭此页面返回应用。</p>"@,
        page_body(false, message, url) == "<p>"@ + escaped(message)
            + "</p><p>可改用手动兜底：复制浏览器<b>地址栏中的完整 URL</b>，回到 AIWorkAssistant 的 OAuth 登录窗口粘贴提交。</p><p class=\"url\">"@
            + escaped(url) + "</p>"@,
        page(true, message, url) == PAGE_TOP@ + "#16a34a"@ + PAGE_STYLE@ + "✓"@ + "</div><h1>"@ + "登录成功"@ + "</h1>"@
            + page_body(true, message, url) + "</div></body></html>"@,
        page(false, message, url) == PAGE_TOP@ + "#dc2626"@ + PAGE_STYLE@ + "✕"@ + "</div><h1>"@ + "登录失败"@ + "</h1>"@
            + page_body(false, message, url) + "</div></body></html>"@,
{
}

/// Listening ends five minutes after the last sign of life; an answer comes to the port that was opened,
/// and why none could be opened is told.
pub proof fn listening_ends_after_five_minutes(now: int, last: int, p: Seq<char>, e: Seq<char>)
    ensures
        is_idle(now, last) == (now >= last + 300),
        answer_url(Some(p)) == "http://127.0.0.1:"@ + digits::decimal(17388) + p,
        answer_url(None) == "http://127.0.0.1:"@ + digits::decimal(17388) + "/authorize"@,
        listen_failure(false, e) == "OAuth 回调监听启动失败: "@ + e,
        listen_failure(true, e) == "OAuth 回调端口 "@ + digits::decimal(17388) + " 已被其他程序占用（"@ + e
            + "），自动收尾不可用；请在下一步改用手动粘贴回调 URL 兜底"@,
{
}

} // verus!
