//! Alerts: the message that is sent when an opportunity is found.

use crate::config::BotConfig;
use crate::opportunity::{Opportunity, OpportunityView};
use crate::runner::alerts_on;
use crate::text::{bool_text, decimal, i128_to_string, signed_decimal, to_chars};
use vstd::prelude::*;

verus! {

/// How one character is written in HTML.
pub open spec fn escaped_char(c: char) -> Seq<char> {
    if c == '&' {
        "&amp;"@
    } else if c == '<' {
        "&lt;"@
    } else if c == '>' {
        "&gt;"@
    } else {
        seq![c]
    }
}

/// How a text is written in HTML: character by character.
pub open spec fn escaped(s: Seq<char>) -> Seq<char>
    decreases s.len(),
{
    if s.len() == 0 {
        Seq::empty()
    } else {
        escaped_char(s[0]) + escaped(s.drop_first())
    }
}

/// Writes a text so that HTML shows it as it is.
pub fn html_escape(value: &str) -> (r: String)
    ensures
        r@ == escaped(value@),
{
    let s = to_chars(value);
    let mut out = String::new();
    let mut i: usize = 0;
    assert(out@ + escaped(value@.skip(0)) =~= escaped(value@)) by {
        assert(value@.skip(0) =~= value@);
    }
    while i < s.len()
        invariant
            i <= s.len(),
            s@ == value@,
            out@ + escaped(value@.skip(i as int)) == escaped(value@),
        decreases s.len() - i,
    {
        let ghost before = out@;
        let c = s[i];
        if c == '&' {
            out.append("&amp;");
        } else if c == '<' {
            out.append("&lt;");
        } else if c == '>' {
            out.append("&gt;");
        } else {
            out.push(c);
        }
        i += 1;
        proof {
            let rest = value@.skip(i as int);
            assert(value@.skip(i - 1).drop_first() =~= rest);
            assert(out@ =~= before + escaped_char(c));
            assert(before + (escaped_char(c) + escaped(rest)) =~= out@ + escaped(rest));
        }
    }
    assert(value@.skip(i as int) =~= Seq::<char>::empty());
    assert(out@ =~= escaped(value@));
    out
}

/// The text of the alert for an opportunity.
pub open spec fn alert_text(o: OpportunityView) -> Seq<char> {
    "🚀💰 <b>发现套利机会</b> 💰🚀\n\n<b>路径</b>: "@ + escaped(o.first_pool) + " → "@
        + escaped(o.second_pool) + "\n<b>Token</b>: "@ + o.token_start.spec_text() + " → "@
        + o.token_mid.spec_text() + " → "@ + o.token_start.spec_text() + "\n<b>输入</b>: "@
        + decimal(o.amount_in) + "\n<b>第一跳输出</b>: "@ + decimal(o.amount_after_first)
        + "\n<b>最终输出</b>: "@ + decimal(o.amount_out) + "\n<b>毛利润 wei</b>: "@
        + signed_decimal(o.gross_profit_wei) + "\n<b>预估净利润 wei</b>: "@ + signed_decimal(
        o.estimated_net_profit_wei,
    ) + "\n<b>利润 bps</b>: "@ + signed_decimal(o.profit_bps) + "\n<b>已扣 gas</b>: "@
        + bool_text(o.gas_adjusted)
}

/// The text of the alert for an opportunity.
pub fn format_opportunity(opportunity: &Opportunity) -> (r: String)
    ensures
        r@ == alert_text(opportunity@),
{
    let mut out = String::new();
    out.append("🚀💰 <b>发现套利机会</b> 💰🚀\n\n<b>路径</b>: ");
    out.append(html_escape(opportunity.first_pool.as_str()).as_str());
    out.append(" → ");
    out.append(html_escape(opportunity.second_pool.as_str()).as_str());
    out.append("\n<b>Token</b>: ");
    out.append(opportunity.token_start.debug_text().as_str());
    out.append(" → ");
    out.append(opportunity.token_mid.debug_text().as_str());
    out.append(" → ");
    out.append(opportunity.token_start.debug_text().as_str());
    out.append("\n<b>输入</b>: ");
    out.append(opportunity.amount_in.display_text().as_str());
    out.append("\n<b>第一跳输出</b>: ");
    out.append(opportunity.amount_after_first.display_text().as_str());
    out.append("\n<b>最终输出</b>: ");
    out.append(opportunity.amount_out.display_text().as_str());
    out.append("\n<b>毛利润 wei</b>: ");
    out.append(i128_to_string(opportunity.gross_profit_wei).as_str());
    out.append("\n<b>预估净利润 wei</b>: ");
    out.append(i128_to_string(opportunity.estimated_net_profit_wei).as_str());
    out.append("\n<b>利润 bps</b>: ");
    out.append(i128_to_string(opportunity.profit_bps).as_str());
    out.append("\n<b>已扣 gas</b>: ");
    if opportunity.gas_adjusted {
        out.append("true");
    } else {
        out.append("false");
    }
    assert(out@ =~= alert_text(opportunity@));
    out
}

/// A message as the Telegram API takes it.
#[derive(Debug)]
pub struct TelegramSendMessage {
    /// The chat that receives it.
    pub chat_id: String,
    /// What it says.
    pub text: String,
    /// How the text is marked up.
    pub parse_mode: &'static str,
    /// Whether links are shown without a preview.
    pub disable_web_page_preview: bool,
}

/// A message, and where to post it.
#[derive(Debug)]
pub struct Notification {
    /// The method of the Telegram API.
    pub url: String,
    /// The message.
    pub payload: TelegramSendMessage,
}

/// Where messages of a bot are posted.
pub open spec fn send_url(bot_token: Seq<char>) -> Seq<char> {
    "https://api.telegram.org/bot"@ + bot_token + "/sendMessage"@
}

/// The alert for an opportunity, unless alerts are off.
pub fn opportunity_notification(cfg: &BotConfig, opportunity: &Opportunity) -> (r: Option<
    Notification,
>)
    ensures
        r is Some <==> alerts_on(*cfg),
        r matches Some(n) ==> {
            &&& n.url@ == send_url(cfg.telegram->0.bot_token@)
            &&& n.payload.chat_id@ == cfg.telegram->0.chat_id@
            &&& n.payload.text@ == alert_text(opportunity@)
            &&& n.payload.parse_mode@ == "HTML"@
            &&& n.payload.disable_web_page_preview
        },
{
    let telegram = match &cfg.telegram {
        Some(telegram) => telegram,
        None => {
            return None;
        },
    };
    if !telegram.enabled {
        return None;
    }
    let mut url = String::new();
    url.append("https://api.telegram.org/bot");
    url.append(telegram.bot_token.as_str());
    url.append("/sendMessage");
    assert(url@ =~= send_url(telegram.bot_token@));
    Some(
        Notification {
            url,
            payload: TelegramSendMessage {
                chat_id: telegram.chat_id.clone(),
                text: format_opportunity(opportunity),
                parse_mode: "HTML",
                disable_web_page_preview: true,
            },
        },
    )
}

/// Whether an HTTP status is one of success.
pub fn is_success(code: u16) -> (r: bool)
    ensures
        r == (200 <= code < 300),
{
    200 <= code && code < 300
}

/// Judges the answer to a message: an error that quotes the answer, unless the
/// status is one of success.
pub fn delivery_result(success: bool, status: &str, body: &str) -> (r: Result<(), String>)
    ensures
        success ==> r is Ok,
        !success ==> (r matches Err(text) && text@ == "telegram sendMessage failed: status="@
            + status@ + ", body="@ + body@),
{
    if success {
        return Ok(());
    }
    let mut text = String::new();
    text.append("telegram sendMessage failed: status=");
    text.append(status);
    text.append(", body=");
    text.append(body);
    assert(text@ =~= "telegram sendMessage failed: status="@ + status@ + ", body="@ + body@);
    Err(text)
}

/// `s` with every `from` replaced by `to`.
pub open spec fn replaced(s: Seq<char>, from: char, to: Seq<char>) -> Seq<char>
    decreases s.len(),
{
    if s.len() == 0 {
        Seq::empty()
    } else {
        (if s[0] == from {
            to
        } else {
            seq![s[0]]
        }) + replaced(s.drop_first(), from, to)
    }
}

/// Replacing in two texts that follow each other.
proof fn lemma_replaced_concat(a: Seq<char>, b: Seq<char>, from: char, to: Seq<char>)
    ensures
        replaced(a + b, from, to) == replaced(a, from, to) + replaced(b, from, to),
    decreases a.len(),
{
    if a.len() == 0 {
        assert(a + b =~= b);
        assert(replaced(a, from, to) + replaced(b, from, to) =~= replaced(b, from, to));
    } else {
        assert((a + b).drop_first() =~= a.drop_first() + b);
        lemma_replaced_concat(a.drop_first(), b, from, to);
        let head = if a[0] == from {
            to
        } else {
            seq![a[0]]
        };
        assert(head + (replaced(a.drop_first(), from, to) + replaced(b, from, to)) =~= (head
            + replaced(a.drop_first(), from, to)) + replaced(b, from, to));
    }
}

/// Replacing what does not occur.
proof fn lemma_replaced_nothing(s: Seq<char>, from: char, to: Seq<char>)
    requires
        forall|i: int| 0 <= i < s.len() ==> #[trigger] s[i] != from,
    ensures
        replaced(s, from, to) == s,
    decreases s.len(),
{
    if s.len() > 0 {
        assert forall|i: int| 0 <= i < s.drop_first().len() implies #[trigger] s.drop_first()[i]
            != from by {
            assert(s.drop_first()[i] == s[i + 1]);
        }
        lemma_replaced_nothing(s.drop_first(), from, to);
        assert(seq![s[0]] + s.drop_first() =~= s);
    } else {
        assert(s =~= Seq::<char>::empty());
    }
}

/// Replacing in a text of one character.
proof fn lemma_replaced_single(c: char, from: char, to: Seq<char>)
    ensures
        replaced(seq![c], from, to) == if c == from {
            to
        } else {
            seq![c]
        },
{
    assert(seq![c].drop_first() =~= Seq::<char>::empty());
    assert(replaced(seq![c].drop_first(), from, to) =~= Seq::<char>::empty());
    assert(replaced(seq![c], from, to) =~= if c == from {
        to
    } else {
        seq![c]
    });
}

/// Escaping is replacing every `&`, then every `<`, then every `>`.
pub proof fn law_escape_is_successive_replacement(s: Seq<char>)
    ensures
        escaped(s) == replaced(
            replaced(replaced(s, '&', "&amp;"@), '<', "&lt;"@),
            '>',
            "&gt;"@,
        ),
    decreases s.len(),
{
    reveal_strlit("&amp;");
    reveal_strlit("&lt;");
    reveal_strlit("&gt;");
    if s.len() > 0 {
        let c = s[0];
        let rest = s.drop_first();
        law_escape_is_successive_replacement(rest);
        assert(s =~= seq![c] + rest);
        let h1 = replaced(seq![c], '&', "&amp;"@);
        let h2 = replaced(h1, '<', "&lt;"@);
        let h3 = replaced(h2, '>', "&gt;"@);
        let r1 = replaced(rest, '&', "&amp;"@);
        let r2 = replaced(r1, '<', "&lt;"@);
        lemma_replaced_concat(seq![c], rest, '&', "&amp;"@);
        lemma_replaced_concat(h1, r1, '<', "&lt;"@);
        lemma_replaced_concat(h2, r2, '>', "&gt;"@);
        lemma_replaced_single(c, '&', "&amp;"@);
        if c == '&' {
            lemma_replaced_nothing(h1, '<', "&lt;"@);
            lemma_replaced_nothing(h2, '>', "&gt;"@);
        } else {
            lemma_replaced_single(c, '<', "&lt;"@);
            if c == '<' {
                lemma_replaced_nothing(h2, '>', "&gt;"@);
            } else {
                lemma_replaced_single(c, '>', "&gt;"@);
            }
        }
        assert(h3 =~= escaped_char(c));
    }
}

/// An escaped text holds no markup.
pub proof fn law_escaped_text_has_no_markup(s: Seq<char>, i: int)
    requires
        0 <= i < escaped(s).len(),
    ensures
        escaped(s)[i] != '<',
        escaped(s)[i] != '>',
    decreases s.len(),
{
    reveal_strlit("&amp;");
    reveal_strlit("&lt;");
    reveal_strlit("&gt;");
    let head = escaped_char(s[0]);
    if i >= head.len() {
        law_escaped_text_has_no_markup(s.drop_first(), i - head.len());
        assert(escaped(s)[i] == escaped(s.drop_first())[i - head.len()]);
    } else {
        assert(escaped(s)[i] == head[i]);
    }
}

/// Different texts stay different when they are escaped.
pub proof fn law_escape_is_unambiguous(a: Seq<char>, b: Seq<char>)
    requires
        escaped(a) == escaped(b),
    ensures
        a == b,
    decreases a.len(),
{
    reveal_strlit("&amp;");
    reveal_strlit("&lt;");
    reveal_strlit("&gt;");
    if a.len() == 0 || b.len() == 0 {
        if a.len() > 0 {
            assert(escaped(a)[0] == escaped_char(a[0])[0]);
        }
        if b.len() > 0 {
            assert(escaped(b)[0] == escaped_char(b[0])[0]);
        }
        assert(a =~= b);
    } else {
        let x = escaped_char(a[0]);
        let y = escaped_char(b[0]);
        let p = escaped(a.drop_first());
        let q = escaped(b.drop_first());
        assert(escaped(a)[0] == x[0] && escaped(b)[0] == y[0]);
        if x.len() > 1 && y.len() > 1 {
            assert(escaped(a)[1] == x[1] && escaped(b)[1] == y[1]);
        }
        assert(a[0] == b[0]);
        assert(p =~= q) by {
            assert((x + p).skip(x.len() as int) =~= p);
            assert((x + q).skip(x.len() as int) =~= q);
        }
        law_escape_is_unambiguous(a.drop_first(), b.drop_first());
        assert(a =~= seq![a[0]] + a.drop_first());
        assert(b =~= seq![b[0]] + b.drop_first());
    }
}

/// Escaping goes character by character: `&`, `<` and `>` become their entities, every
/// other character stays as it is, and nothing is added or lost between them.
pub proof fn law_escaping_goes_by_character(a: Seq<char>, c: char, b: Seq<char>)
    ensures
        escaped(Seq::empty()) == Seq::<char>::empty(),
        escaped(a + seq![c] + b) == escaped(a) + escaped(seq![c]) + escaped(b),
        c == '&' ==> escaped(seq![c]) == seq!['&', 'a', 'm', 'p', ';'],
        c == '<' ==> escaped(seq![c]) == seq!['&', 'l', 't', ';'],
        c == '>' ==> escaped(seq![c]) == seq!['&', 'g', 't', ';'],
        c != '&' && c != '<' && c != '>' ==> escaped(seq![c]) == seq![c],
{
    reveal_strlit("&amp;");
    reveal_strlit("&lt;");
    reveal_strlit("&gt;");
    reveal_with_fuel(escaped, 2);
    lemma_escaped_concat(a, seq![c]);
    lemma_escaped_concat(a + seq![c], b);
    let one = seq![c];
    assert(one.drop_first() =~= Seq::<char>::empty());
    assert(escaped(one) =~= escaped_char(c));
    assert(c == '&' ==> escaped(one) =~= seq!['&', 'a', 'm', 'p', ';']);
    assert(c == '<' ==> escaped(one) =~= seq!['&', 'l', 't', ';']);
    assert(c == '>' ==> escaped(one) =~= seq!['&', 'g', 't', ';']);
}

/// Escaping goes part by part.
proof fn lemma_escaped_concat(a: Seq<char>, b: Seq<char>)
    ensures
        escaped(a + b) == escaped(a) + escaped(b),
    decreases a.len(),
{
    if a.len() == 0 {
        assert(a + b =~= b);
        assert(escaped(a) + escaped(b) =~= escaped(b));
    } else {
        lemma_escaped_concat(a.drop_first(), b);
        assert((a + b).drop_first() =~= a.drop_first() + b);
        assert((a + b)[0] == a[0]);
        assert(escaped(a + b) =~= escaped(a) + escaped(b));
    }
}

/// An alert has these lines, in this order: each names one figure of the opportunity
/// and gives its value. The pools are escaped; the route goes from the start token to
/// the token in between and back.
pub proof fn law_lines_of_an_alert(o: OpportunityView)
    ensures
        ({
            let route = "<b>路径</b>: "@ + escaped(o.first_pool) + " → "@ + escaped(o.second_pool);
            let tokens = "<b>Token</b>: "@ + o.token_start.spec_text() + " → "@
                + o.token_mid.spec_text() + " → "@ + o.token_start.spec_text();
            alert_text(o) == "🚀💰 <b>发现套利机会</b> 💰🚀"@ + "\n"@ + "\n"@ + route + "\n"@ + tokens
                + "\n"@ + ("<b>输入</b>: "@ + decimal(o.amount_in)) + "\n"@ + ("<b>第一跳输出</b>: "@
                + decimal(o.amount_after_first)) + "\n"@ + ("<b>最终输出</b>: "@ + decimal(
                o.amount_out,
            )) + "\n"@ + ("<b>毛利润 wei</b>: "@ + signed_decimal(o.gross_profit_wei)) + "\n"@ + (
            "<b>预估净利润 wei</b>: "@ + signed_decimal(o.estimated_net_profit_wei)) + "\n"@ + (
            "<b>利润 bps</b>: "@ + signed_decimal(o.profit_bps)) + "\n"@ + ("<b>已扣 gas</b>: "@
                + bool_text(o.gas_adjusted))
        }),
{
    reveal_strlit("\n");
    reveal_strlit("🚀💰 <b>发现套利机会</b> 💰🚀\n\n<b>路径</b>: ");
    reveal_strlit("🚀💰 <b>发现套利机会</b> 💰🚀");
    reveal_strlit("<b>路径</b>: ");
    reveal_strlit("\n<b>Token</b>: ");
    reveal_strlit("<b>Token</b>: ");
    reveal_strlit("\n<b>输入</b>: ");
    reveal_strlit("<b>输入</b>: ");
    reveal_strlit("\n<b>第一跳输出</b>: ");
    reveal_strlit("<b>第一跳输出</b>: ");
    reveal_strlit("\n<b>最终输出</b>: ");
    reveal_strlit("<b>最终输出</b>: ");
    reveal_strlit("\n<b>毛利润 wei</b>: ");
    reveal_strlit("<b>毛利润 wei</b>: ");
    reveal_strlit("\n<b>预估净利润 wei</b>: ");
    reveal_strlit("<b>预估净利润 wei</b>: ");
    reveal_strlit("\n<b>利润 bps</b>: ");
    reveal_strlit("<b>利润 bps</b>: ");
    reveal_strlit("\n<b>已扣 gas</b>: ");
    reveal_strlit("<b>已扣 gas</b>: ");
    assert("🚀💰 <b>发现套利机会</b> 💰🚀\n\n<b>路径</b>: "@ =~= "🚀💰 <b>发现套利机会</b> 💰🚀"@ + "\n"@ + "\n"@
        + "<b>路径</b>: "@);
    assert("\n<b>Token</b>: "@ =~= "\n"@ + "<b>Token</b>: "@);
    assert("\n<b>输入</b>: "@ =~= "\n"@ + "<b>输入</b>: "@);
    assert("\n<b>第一跳输出</b>: "@ =~= "\n"@ + "<b>第一跳输出</b>: "@);
    assert("\n<b>最终输出</b>: "@ =~= "\n"@ + "<b>最终输出</b>: "@);
    assert("\n<b>毛利润 wei</b>: "@ =~= "\n"@ + "<b>毛利润 wei</b>: "@);
    assert("\n<b>预估净利润 wei</b>: "@ =~= "\n"@ + "<b>预估净利润 wei</b>: "@);
    assert("\n<b>利润 bps</b>: "@ =~= "\n"@ + "<b>利润 bps</b>: "@);
    assert("\n<b>已扣 gas</b>: "@ =~= "\n"@ + "<b>已扣 gas</b>: "@);
    let arrow = " → "@;
    let head = "🚀💰 <b>发现套利机会</b> 💰🚀"@ + "\n"@ + "\n"@;
    let route = "<b>路径</b>: "@ + escaped(o.first_pool) + arrow + escaped(o.second_pool);
    let (start, mid) = (o.token_start.spec_text(), o.token_mid.spec_text());
    let tokens = "<b>Token</b>: "@ + start + arrow + mid + arrow + start;
    let one = head + route;
    assert("🚀💰 <b>发现套利机会</b> 💰🚀\n\n<b>路径</b>: "@ + escaped(o.first_pool) + arrow + escaped(
        o.second_pool,
    ) =~= one);
    let two = one + "\n"@ + tokens;
    assert(one + "\n<b>Token</b>: "@ + start + arrow + mid + arrow + start =~= two);
    let three = lemma_next_line(two, "<b>输入</b>: "@, decimal(o.amount_in));
    let four = lemma_next_line(three, "<b>第一跳输出</b>: "@, decimal(o.amount_after_first));
    let five = lemma_next_line(four, "<b>最终输出</b>: "@, decimal(o.amount_out));
    let six = lemma_next_line(five, "<b>毛利润 wei</b>: "@, signed_decimal(o.gross_profit_wei));
    let seven = lemma_next_line(
        six,
        "<b>预估净利润 wei</b>: "@,
        signed_decimal(o.estimated_net_profit_wei),
    );
    let eight = lemma_next_line(seven, "<b>利润 bps</b>: "@, signed_decimal(o.profit_bps));
    let nine = lemma_next_line(eight, "<b>已扣 gas</b>: "@, bool_text(o.gas_adjusted));
    assert(alert_text(o) == nine);
}

/// One more line: its label and its value behind a line break.
proof fn lemma_next_line(text: Seq<char>, label: Seq<char>, value: Seq<char>) -> (next: Seq<char>)
    ensures
        next == text + "\n"@ + (label + value),
        next == text + ("\n"@ + label) + value,
{
    let next = text + "\n"@ + (label + value);
    assert(next =~= text + ("\n"@ + label) + value);
    next
}

/// Alerts are on exactly where Telegram is configured and enabled, and are posted to
/// the method of the bot whose token is configured.
pub proof fn law_where_alerts_go(cfg: BotConfig, bot_token: Seq<char>)
    ensures
        alerts_on(cfg) <==> cfg.telegram is Some && cfg.telegram->0.enabled,
        send_url(bot_token).len() == 40 + bot_token.len(),
        send_url(bot_token).take(28) == "https://api.telegram.org/bot"@,
        send_url(bot_token).subrange(28, 28 + bot_token.len() as int) == bot_token,
        send_url(bot_token).skip(28 + bot_token.len() as int) == "/sendMessage"@,
{
    reveal_strlit("https://api.telegram.org/bot");
    reveal_strlit("/sendMessage");
    assert(send_url(bot_token).take(28) =~= "https://api.telegram.org/bot"@);
    assert(send_url(bot_token).subrange(28, 28 + bot_token.len() as int) =~= bot_token);
    assert(send_url(bot_token).skip(28 + bot_token.len() as int) =~= "/sendMessage"@);
}

} // verus!
