//! What the hosts tell each other.
use vstd::prelude::*;
use vstd::string::*;
use crate::json::{hex_digit, json_char, json_chars, json_string};
use crate::protocol::{data_reply, error_reply, reply_told, NicInfo, Resp};
use crate::runs::size_to;
use crate::text::decimal;

verus! {

/// An interface in short shows its speed and its band where they are known, the speed first.
pub proof fn lemma_brief_shows_what_is_known(nic: NicInfo)
    ensures
        nic.speed_mbps == 0 && nic.wifi_band@.len() == 0 ==> nic.brief_extra().len() == 0,
        nic.speed_mbps > 0 && nic.wifi_band@.len() == 0 ==> nic.brief_extra() == ", "@ + decimal(
            nic.speed_mbps as nat,
        ) + "Mbps"@,
        nic.speed_mbps == 0 && nic.wifi_band@.len() > 0 ==> nic.brief_extra() == ", "@
            + nic.wifi_band@,
        nic.speed_mbps > 0 && nic.wifi_band@.len() > 0 ==> nic.brief_extra() == ", "@ + decimal(
            nic.speed_mbps as nat,
        ) + "Mbps"@ + ", "@ + nic.wifi_band@,
{
    let none = Seq::<char>::empty();
    if nic.speed_mbps > 0 {
        let speed = ", "@ + decimal(nic.speed_mbps as nat) + "Mbps"@;
        assert(speed + none =~= speed);
        assert(speed + (", "@ + nic.wifi_band@) =~= speed + ", "@ + nic.wifi_band@);
    } else {
        assert(none + (", "@ + nic.wifi_band@) =~= ", "@ + nic.wifi_band@);
    }
}

/// A reply is taken exactly when it came with status 200, could be read, says that all went well and
/// holds data, which is what is taken. Otherwise the first of these that failed is told: a token
/// asked for, another status, what the reader says, what the reply says.
pub proof fn lemma_good_replies_are_taken<T>(status: u16, reply: Result<Resp<T>, String>)
    ensures
        reply_told(status, reply) is Ok <==> status == 200 && reply is Ok && reply->Ok_0.ok
            && reply->Ok_0.data is Some,
        reply_told(status, reply) is Ok ==> Some(reply_told(status, reply)->Ok_0)
            == reply->Ok_0.data,
        status == 401 ==> reply_told(status, reply) == Err::<T, Seq<char>>(
            "agent 返回 401：已启用令牌认证，请填写相同的 token"@,
        ),
        status != 401 && status != 200 ==> reply_told(status, reply) == Err::<T, Seq<char>>(
            "HTTP "@ + decimal(status as nat),
        ),
        status == 200 ==> (reply matches Err(e) ==> reply_told(status, reply) == Err::<
            T,
            Seq<char>,
        >("响应解析失败: "@ + e@)),
        status == 200 ==> (reply matches Ok(resp) ==> {
            &&& !resp.ok ==> (resp.error matches Some(e) ==> reply_told(status, reply) == Err::<
                T,
                Seq<char>,
            >(e@))
            &&& !resp.ok && resp.error is None ==> reply_told(status, reply) == Err::<T, Seq<char>>(
                "未知错误"@,
            )
            &&& resp.ok && resp.data is None ==> reply_told(status, reply) == Err::<T, Seq<char>>(
                "响应缺 data"@,
            )
        }),
{
}

/// A reply is an object that says whether all went well and holds the error or the data, and null
/// for the other. Data that could not be written are an error.
pub proof fn lemma_replies_are_objects(msg: Seq<char>, json: Seq<char>)
    ensures
        error_reply(msg) == "{\"ok\":false,\"error\":"@ + json_string(msg) + ",\"data\":null}"@,
        data_reply(Ok(json)) == "{\"ok\":true,\"error\":null,\"data\":"@ + json + "}"@,
        data_reply(Err(msg)) == error_reply("序列化失败: "@ + msg),
{
}

/// Whether a character stands for itself in a JSON string.
pub open spec fn stands_as_is(c: char) -> bool {
    c != '"' && c != '\\' && c as int >= 0x20
}

/// Whether a text is nothing but characters that stand for themselves.
pub open spec fn all_as_is(s: Seq<char>) -> bool {
    forall|i: int| 0 <= i < s.len() ==> stands_as_is(#[trigger] s[i])
}

proof fn lemma_chars_as_is(s: Seq<char>)
    requires
        all_as_is(s),
    ensures
        json_chars(s) == s,
    decreases s.len(),
{
    if s.len() > 0 {
        let head = s.drop_last();
        assert forall|i: int| 0 <= i < head.len() implies stands_as_is(#[trigger] head[i]) by {
            assert(head[i] == s[i]);
        }
        lemma_chars_as_is(head);
        assert(stands_as_is(s[s.len() - 1]));
        assert(json_chars(s) =~= s);
    }
}

/// A JSON string is a text in quotes; a text without quotes, backslashes and control characters
/// stands as it is.
pub proof fn lemma_plain_text_stands_in_quotes(s: Seq<char>)
    requires
        all_as_is(s),
    ensures
        json_string(s) == seq!['"'] + s + seq!['"'],
{
    lemma_chars_as_is(s);
}

/// Every other character is written after a backslash: a quote and a backslash by themselves, the
/// usual control characters by their letters, and the rest by four hexadecimal digits.
pub proof fn lemma_other_characters_are_escaped(s: Seq<char>, c: char)
    ensures
        json_string(s.push(c)).len() == json_string(s).len() + json_char(c).len(),
        json_char('"') == seq!['\\', '"'],
        json_char('\\') == seq!['\\', '\\'],
        json_char('\n') == seq!['\\', 'n'],
        json_char('\r') == seq!['\\', 'r'],
        json_char('\t') == seq!['\\', 't'],
        json_char('\u{8}') == seq!['\\', 'b'],
        json_char('\u{c}') == seq!['\\', 'f'],
        stands_as_is(c) ==> json_char(c) == seq![c],
        !stands_as_is(c) ==> json_char(c)[0] == '\\' && json_char(c).len() >= 2,
        json_char(c).len() > 2 ==> json_char(c).len() == 6 && json_char(c)[1] == 'u'
            && json_char(c)[2] == '0' && json_char(c)[3] == '0' && json_char(c)[4] == (if c as int
            >= 16 {
            '1'
        } else {
            '0'
        }),
{
    assert(s.push(c).drop_last() =~= s);
    if (c as int) < 0x20 {
        assert((c as int) / 16 == if c as int >= 16 {
            1int
        } else {
            0
        });
    }
}

/// A hexadecimal digit is a decimal digit or one of the small letters after them, in order.
pub proof fn lemma_hexadecimal_digits_rise(n: int)
    requires
        0 <= n < 16,
    ensures
        n < 10 ==> hex_digit(n) as int == '0' as int + n,
        n >= 10 ==> hex_digit(n) as int == 'a' as int + (n - 10),
{
}

/// The size of a directory is that of all files in it together.
pub proof fn lemma_sizes_add_up(sizes: Seq<u64>, n: int)
    requires
        0 < n <= sizes.len(),
    ensures
        size_to(sizes, n) == size_to(sizes, n - 1) + sizes[n - 1],
        size_to(sizes, 0) == 0,
        forall|i: int| 0 <= i < n ==> size_to(sizes, n) >= #[trigger] sizes[i],
    decreases n,
{
    if n > 1 {
        lemma_sizes_add_up(sizes, n - 1);
        lemma_sizes_are_not_negative(sizes, n - 1);
    }
}

proof fn lemma_sizes_are_not_negative(sizes: Seq<u64>, n: int)
    requires
        0 <= n <= sizes.len(),
    ensures
        size_to(sizes, n) >= 0,
    decreases n,
{
    if n > 0 {
        lemma_sizes_are_not_negative(sizes, n - 1);
    }
}

} // verus!
