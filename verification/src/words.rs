//! What the texts that the server writes and reads say.
use vstd::prelude::*;
use vstd::utf8::encode_utf8;
use crate::chance::is_v4;
use crate::dealings::noted;
use crate::keys::UserKey;
use crate::protocol::{ClientCommand, RefusalView, ServerCommandView, TextKey};
use crate::ranking::{grade, result_line, Record, UserPlayedResult};
use crate::scene::{time_text, Scene};
use crate::session::{is_alive, ReceiptView, Session};
use crate::sharing::{agrees, asks_for_rooms, choice_text, is_shared, site_reply, SiteReply};
use crate::text::{
    decimal, digit_char, is_blank, joined, marked, score_text, trim_end, trim_start, trimmed, zeros,
};

verus! {

/// A decimal digit.
pub open spec fn is_digit(c: char) -> bool {
    '0' <= c && c <= '9'
}

/// The number that a row of decimal digits stands for.
pub open spec fn number(digits: Seq<char>) -> int
    decreases digits.len(),
{
    if digits.len() == 0 {
        0
    } else {
        number(digits.drop_last()) * 10 + (digits.last() as int - '0' as int)
    }
}

/// Decimal digits stand for the number that was written, and do not begin with a
/// zero unless there is no other digit.
pub proof fn law_decimal(n: nat)
    ensures
        number(decimal(n)) == n,
        decimal(n).len() >= 1,
        forall|i: int| 0 <= i < decimal(n).len() ==> is_digit(#[trigger] decimal(n)[i]),
        decimal(n).len() > 1 ==> decimal(n)[0] != '0',
        n > 0 ==> decimal(n)[0] != '0',
    decreases n,
{
    let digits = decimal(n);
    if n < 10 {
        assert(digits.drop_last() =~= Seq::empty());
        assert(number(digits.drop_last()) == 0);
    } else {
        law_decimal(n / 10);
        let c = digit_char(n % 10);
        assert(digits.drop_last() =~= decimal(n / 10));
        assert(c as int == 48 + n % 10);
        assert(digits[0] == decimal(n / 10)[0]);
    }
}

proof fn lemma_zeros(n: nat, digits: Seq<char>)
    ensures
        number(zeros(n) + digits) == number(digits),
    decreases digits.len(), n,
{
    if digits.len() > 0 {
        assert((zeros(n) + digits).drop_last() =~= zeros(n) + digits.drop_last());
        lemma_zeros(n, digits.drop_last());
    } else if n > 0 {
        assert((zeros(n) + digits).drop_last() =~= zeros((n - 1) as nat) + digits);
        lemma_zeros((n - 1) as nat, digits);
    } else {
        assert(zeros(n) + digits =~= digits);
    }
}

proof fn lemma_long(digits: Seq<char>, n: nat)
    requires
        forall|i: int| 0 <= i < digits.len() ==> is_digit(#[trigger] digits[i]),
        digits.len() >= n,
        digits.len() >= 1,
        digits[0] != '0',
    ensures
        n == 7 ==> number(digits) >= 1000000,
        n == 8 ==> number(digits) >= 10000000,
        n == 1 ==> number(digits) >= 1,
        n == 2 ==> number(digits) >= 10,
        n == 3 ==> number(digits) >= 100,
        n == 4 ==> number(digits) >= 1000,
        n == 5 ==> number(digits) >= 10000,
        n == 6 ==> number(digits) >= 100000,
    decreases n,
{
    let rest = digits.drop_last();
    if 1 < n && n <= 8 {
        assert(rest[0] == digits[0]);
        lemma_long(rest, (n - 1) as nat);
    } else if n == 1 {
        lemma_positive(digits);
    }
}

proof fn lemma_positive(digits: Seq<char>)
    requires
        forall|i: int| 0 <= i < digits.len() ==> is_digit(#[trigger] digits[i]),
        digits.len() >= 1,
        digits[0] != '0',
    ensures
        number(digits) >= 1,
    decreases digits.len(),
{
    let rest = digits.drop_last();
    if digits.len() > 1 {
        assert(rest[0] == digits[0]);
        lemma_positive(rest);
    } else {
        assert(number(rest) == 0);
    }
}

/// A score is written with seven characters, or more if it needs them: a minus
/// sign if it is negative, and then digits that stand for it.
pub proof fn law_score_text(score: int)
    ensures
        ({
            let text = score_text(score);
            let digits = if score < 0 {
                text.drop_first()
            } else {
                text
            };
            &&& text.len() >= 7
            &&& -1000000 < score < 10000000 ==> text.len() == 7
            &&& score < 0 ==> text[0] == '-'
            &&& forall|i: int| 0 <= i < digits.len() ==> is_digit(#[trigger] digits[i])
            &&& number(digits) == if score < 0 {
                -score
            } else {
                score
            }
        }),
{
    let text = score_text(score);
    if score >= 0 {
        let digits = decimal(score as nat);
        law_decimal(score as nat);
        let n: nat = if digits.len() < 7 {
            (7 - digits.len()) as nat
        } else {
            0
        };
        lemma_zeros(n, digits);
        if digits.len() >= 8 {
            lemma_long(digits, 8);
        }
        assert(text =~= zeros(n) + digits);
    } else {
        let digits = decimal((-score) as nat);
        law_decimal((-score) as nat);
        let n: nat = if digits.len() < 6 {
            (6 - digits.len()) as nat
        } else {
            0
        };
        lemma_zeros(n, digits);
        if digits.len() >= 7 {
            lemma_long(digits, 7);
        }
        assert(text.drop_first() =~= zeros(n) + digits);
    }
}

/// The grades: from 700000 on C, from 820000 on B, from 880000 on A, from 920000
/// on S, from 960000 on V, for a full million φ, and above it 纪.
pub proof fn law_grade(score: int)
    ensures
        score < 700000 ==> grade(score) == "F"@,
        700000 <= score < 820000 ==> grade(score) == "C"@,
        820000 <= score < 880000 ==> grade(score) == "B"@,
        880000 <= score < 920000 ==> grade(score) == "A"@,
        920000 <= score < 960000 ==> grade(score) == "S"@,
        960000 <= score < 1000000 ==> grade(score) == "V"@,
        score == 1000000 ==> grade(score) == "φ"@,
        score > 1000000 ==> grade(score) == "纪"@,
{
}

/// The line that announces a result, part by part.
pub proof fn law_result_line(rank: nat, r: UserPlayedResult)
    ensures
        ({
            let first = "第"@ + decimal(rank) + "  玩家:"@ + r.user_name@ + "  等级:"@ + grade(
                r.score as int,
            ) + "  分数:"@ + score_text(r.score as int) + "  ACC:"@ + r.accuracy.percent@ + "%  "@;
            &&& r.fc_state ==> result_line(rank, r) == first + "Full Combo"@
            &&& !r.fc_state ==> result_line(rank, r) == first
        }),
{
    reveal_strlit("%");
    reveal_strlit("  ");
    reveal_strlit("%  ");
    assert("%"@ + "  "@ =~= "%  "@);
    let head = "第"@ + decimal(rank) + "  玩家:"@ + r.user_name@ + "  等级:"@ + grade(
        r.score as int,
    ) + "  分数:"@ + score_text(r.score as int) + "  ACC:"@ + r.accuracy.percent@;
    assert(head + "%"@ + "  "@ =~= head + "%  "@);
    assert(head + "%  "@ + Seq::<char>::empty() =~= head + "%  "@);
}

/// The line of a result ends in `Full Combo` exactly if the record that it stems
/// from says so.
pub proof fn law_full_combo(s: Scene, user: UserKey, record: Record, now: u64, rank: nat)
    requires
        s.users.contains_key(user),
    ensures
        ({
            let results = s.scored(user, record, now).room.users_played_result;
            let line = result_line(rank, results.last());
            &&& results.len() == s.room.users_played_result.len() + 1
            &&& results == noted(s, user, record, now).room.users_played_result
            &&& line.len() >= 10
            &&& record.full_combo <==> line.skip(line.len() - 10) == "Full Combo"@
        }),
{
    let r = s.scored(user, record, now).room.users_played_result.last();
    let line = result_line(rank, r);
    law_result_line(rank, r);
    law_score_text(record.score as int);
    reveal_strlit("%  ");
    reveal_strlit("Full Combo");
    reveal_strlit("第");
    reveal_strlit("  玩家:");
    reveal_strlit("  等级:");
    reveal_strlit("  分数:");
    reveal_strlit("  ACC:");
    let first = "第"@ + decimal(rank) + "  玩家:"@ + r.user_name@ + "  等级:"@ + grade(
        r.score as int,
    ) + "  分数:"@ + score_text(r.score as int) + "  ACC:"@ + r.accuracy.percent@ + "%  "@;
    assert(first.len() >= 10);
    assert(first.last() == ' ');
    if r.fc_state {
        assert(line.skip(line.len() - 10) =~= "Full Combo"@);
    } else {
        assert(line.skip(line.len() - 10)[9] == ' ');
        assert("Full Combo"@[9] == 'o');
    }
}

/// A stretch of time is written in minutes and seconds, without the minutes if
/// there are none.
pub proof fn law_time_text(minutes: nat, seconds: nat)
    requires
        seconds < 60,
    ensures
        minutes == 0 ==> time_text(60 * minutes + seconds) == decimal(seconds) + "秒"@,
        minutes > 0 ==> time_text(60 * minutes + seconds) == decimal(minutes) + "分"@ + decimal(
            seconds,
        ) + "秒"@,
{
    let all = 60 * minutes + seconds;
    assert(all / 60 == minutes);
    assert(all % 60 == seconds);
}

/// Joining texts puts the mark between each two of them and nowhere else.
pub proof fn law_joined_texts(parts: Seq<Seq<char>>, part: Seq<char>, mark: Seq<char>)
    ensures
        joined(Seq::empty(), mark) == Seq::<char>::empty(),
        joined(seq![part], mark) == part,
        parts.len() > 0 ==> joined(parts.push(part), mark) == joined(parts, mark) + mark + part,
{
    assert(seq![part].drop_first() =~= Seq::empty());
    assert(marked(Seq::empty(), mark) =~= Seq::empty());
    assert(joined(seq![part], mark) =~= part);
    if parts.len() > 0 {
        let more = parts.push(part);
        assert(more.drop_first().drop_last() =~= parts.drop_first());
        assert(joined(more, mark) =~= joined(parts, mark) + mark + part);
    }
}

/// The blanks are these twenty-five characters.
pub proof fn law_blanks(c: char)
    ensures
        is_blank(c) <==> (c == '\u{9}' || c == '\u{a}' || c == '\u{b}' || c == '\u{c}' || c
            == '\u{d}' || c == '\u{20}' || c == '\u{85}' || c == '\u{a0}' || c == '\u{1680}' || c
            == '\u{2000}' || c == '\u{2001}' || c == '\u{2002}' || c == '\u{2003}' || c
            == '\u{2004}' || c == '\u{2005}' || c == '\u{2006}' || c == '\u{2007}' || c
            == '\u{2008}' || c == '\u{2009}' || c == '\u{200a}' || c == '\u{2028}' || c
            == '\u{2029}' || c == '\u{202f}' || c == '\u{205f}' || c == '\u{3000}'),
{
}

/// Trimming cuts blanks off both ends, and nothing else: what is left is a stretch
/// of the text, all that was cut is blank, and neither end of it is.
pub proof fn law_trimmed(s: Seq<char>)
    ensures
        exists|i: int, j: int|
            #![trigger s.subrange(i, j)]
            {
                &&& 0 <= i <= j <= s.len()
                &&& trimmed(s) == s.subrange(i, j)
                &&& forall|k: int| 0 <= k < i || j <= k < s.len() ==> is_blank(#[trigger] s[k])
                &&& i < j ==> !is_blank(s[i]) && !is_blank(s[j - 1])
            },
{
    let i = lemma_trim_start(s);
    let t = trim_start(s);
    let m = lemma_trim_end(t);
    assert(t.subrange(0, m) =~= s.subrange(i, i + m));
    assert forall|k: int| 0 <= k < i || i + m <= k < s.len() implies is_blank(#[trigger] s[k]) by {
        if i + m <= k {
            assert(t[k - i] == s[k]);
        }
    }
    if m > 0 {
        assert(t[0] == s[i]);
        assert(t[m - 1] == s[i + m - 1]);
    }
    assert(trimmed(s) == s.subrange(i, i + m));
}

proof fn lemma_trim_start(s: Seq<char>) -> (i: int)
    ensures
        0 <= i <= s.len(),
        trim_start(s) == s.subrange(i, s.len() as int),
        forall|k: int| 0 <= k < i ==> is_blank(#[trigger] s[k]),
        i < s.len() ==> !is_blank(s[i]),
    decreases s.len(),
{
    if s.len() > 0 && is_blank(s[0]) {
        let rest = s.drop_first();
        let j = lemma_trim_start(rest);
        assert(rest.subrange(j, rest.len() as int) =~= s.subrange(j + 1, s.len() as int));
        assert forall|k: int| 0 <= k < j + 1 implies is_blank(#[trigger] s[k]) by {
            if k > 0 {
                assert(rest[k - 1] == s[k]);
            }
        }
        j + 1
    } else {
        assert(s.subrange(0, s.len() as int) =~= s);
        0
    }
}

proof fn lemma_trim_end(s: Seq<char>) -> (j: int)
    ensures
        0 <= j <= s.len(),
        trim_end(s) == s.subrange(0, j),
        forall|k: int| j <= k < s.len() ==> is_blank(#[trigger] s[k]),
        j > 0 ==> !is_blank(s[j - 1]),
    decreases s.len(),
{
    if s.len() > 0 && is_blank(s.last()) {
        let rest = s.drop_last();
        let j = lemma_trim_end(rest);
        assert(rest.subrange(0, j) =~= s.subrange(0, j));
        assert forall|k: int| j <= k < s.len() implies is_blank(#[trigger] s[k]) by {
            if k < rest.len() {
                assert(rest[k] == s[k]);
            }
        }
        j
    } else {
        assert(s.subrange(0, s.len() as int) =~= s);
        s.len() as int
    }
}

/// The choice of an owner who agrees is kept as the two addresses that they typed,
/// without blanks around them, with a colon between.
pub proof fn law_choice_kept(site: Seq<char>, game: Seq<char>)
    ensures
        choice_text(true, site, game) == trimmed(site).push(':') + trimmed(game),
        choice_text(false, site, game) == "false"@,
{
    reveal_strlit(":");
    assert(choice_text(true, site, game) =~= trimmed(site).push(':') + trimmed(game));
}

/// The names of the texts in the language files.
pub proof fn law_text_names()
    ensures
        TextKey::CreateIdOccupied.spec_name() == "create-id-occupied"@,
        TextKey::JoinRoomLocked.spec_name() == "join-room-locked"@,
        TextKey::JoinCantMonitor.spec_name() == "join-cant-monitor"@,
        TextKey::JoinRoomFull.spec_name() == "join-room-full"@,
        TextKey::StartNoChartSelected.spec_name() == "start-no-chart-selected"@,
{
}

/// What becomes of a command, in full. A connection that has panicked is silent. A
/// ping is answered. Where the user is known the command is theirs. Else only a
/// token can help, and only as the first command: one of 32 bytes is looked up,
/// and any other one is refused and ends the connection. In any case the chance is
/// used up.
pub proof fn law_received(s: Session, cmd: ClientCommand)
    ensures
        ({
            let (after, receipt) = s.hears(cmd);
            let used = Session { ticket: false, ..s };
            let bad = cmd matches ClientCommand::Authenticate { token } && encode_utf8(token@).len()
                != 32;
            let fresh = s.user is None && s.ticket && cmd is Authenticate;
            &&& s.panicked ==> after == used && receipt == ReceiptView::Ignore
            &&& !s.panicked && cmd is Ping ==> after == used && receipt == ReceiptView::Reply(
                ServerCommandView::Pong,
            )
            &&& !s.panicked && cmd !is Ping ==> (s.user matches Some(user) ==> after == used
                && receipt == ReceiptView::Process(user))
            &&& !s.panicked && fresh && !bad ==> after == used && receipt == ReceiptView::Identify
            &&& !s.panicked && fresh && bad ==> after == (Session { panicked: true, ..used })
                && receipt == ReceiptView::Reply(
                ServerCommandView::Authenticate(Err(RefusalView::Text("invalid token"@))),
            )
            &&& !s.panicked && cmd !is Ping && s.user is None && !fresh ==> after == used && receipt
                == ReceiptView::Ignore
            &&& after.hopeless() <==> s.user is None
        }),
{
}

/// A client counts as there until the time allowed has passed since it was last
/// heard of, and no longer.
pub proof fn law_alive(last_recv: u64, timeout: u64, now: u64, there: bool)
    requires
        call_ensures(is_alive, (last_recv, timeout, now), there),
    ensures
        there <==> now < last_recv + timeout,
{
}

/// What owners and the website say counts without the blanks around it, but for
/// the reply of the website, which is taken as it is.
pub proof fn law_sharing(
    said: &str,
    agreed: bool,
    asked: bool,
    shared: bool,
    reply: SiteReply,
)
    requires
        call_ensures(agrees, (said,), agreed),
        call_ensures(asks_for_rooms, (said,), asked),
        call_ensures(is_shared, (said,), shared),
        call_ensures(site_reply, (said,), reply),
    ensures
        agreed <==> trimmed(said@) == "yes"@,
        asked <==> trimmed(said@) == "GRS"@,
        !shared <==> said@ == "false"@,
        reply is Accepted <==> said@ == "ok"@,
        reply is WrongAddress <==> said@ == "no"@ && said@ != "ok"@,
        reply is Unknown <==> said@ != "ok"@ && said@ != "no"@,
{
}

/// A new connection has its id and version, and all is open on it.
pub proof fn law_new_connection(id: u128, version: u8, s: Session)
    requires
        call_ensures(Session::new, (id, version), s),
    ensures
        s.id == id,
        s.version == version,
        s.user is None,
        s.user_name@.len() == 0,
        !s.panicked,
        s.ticket,
{
}

/// A random id says in bits 76 to 79 that its version is 4, and in bits 62 and 63
/// that its variant is 2.
pub proof fn law_random_id(id: u128)
    ensures
        is_v4(id) <==> (id >> 76) & 0xf == 4 && (id >> 62) & 0x3 == 2,
{
    assert((id / 0x1000_0000_0000_0000_0000) % 16 == (id >> 76) & 0xf) by (bit_vector);
    assert((id / 0x4000_0000_0000_0000) % 4 == (id >> 62) & 0x3) by (bit_vector);
}

} // verus!
