use vstd::prelude::*;
use crate::event::{Event, QuitMethod};
use crate::model::connection::Connection;
use crate::text::{str_eq, string_from_chars};

verus! {

/// `s` cut at each space, as `str::split(' ')` cuts it (empty fields kept).
pub open spec fn fields(s: Seq<char>) -> Seq<Seq<char>>
    decreases s.len(),
{
    if s.len() == 0 {
        seq![Seq::empty()]
    } else {
        let f = fields(s.drop_last());
        if s.last() == ' ' {
            f.push(Seq::empty())
        } else {
            f.drop_last().push(f.last().push(s.last()))
        }
    }
}

/// What follows `prefix` in `line`, when `line` starts with it and goes on.
pub open spec fn after(prefix: Seq<char>, line: Seq<char>) -> Option<Seq<char>> {
    if prefix.len() < line.len() && line.subrange(0, prefix.len() as int) == prefix {
        Some(line.skip(prefix.len() as int))
    } else {
        None
    }
}

/// Whether `c` is an ASCII digit.
pub open spec fn is_digit(c: char) -> bool {
    '0' <= c && c <= '9'
}

/// The number that the digits `s` write in base ten.
pub open spec fn digits_value(s: Seq<char>) -> int
    decreases s.len(),
{
    if s.len() == 0 {
        0
    } else {
        digits_value(s.drop_last()) * 10 + (s.last() as int - '0' as int)
    }
}

/// The port that `s` writes: one or more digits worth at most 65535.
pub open spec fn port_of(s: Seq<char>) -> Option<u16> {
    if s.len() > 0 && (forall|i: int| 0 <= i < s.len() ==> is_digit(#[trigger] s[i])) && digits_value(s)
        <= 65535 {
        Some(digits_value(s) as u16)
    } else {
        None
    }
}

/// `line` is `/connect HOST PORT [TLS [VERIFY]]`, single spaces apart.
pub open spec fn is_connect(line: Seq<char>) -> bool {
    let f = fields(line);
    &&& 3 <= f.len() <= 5
    &&& f[0] == "/connect"@
    &&& f[1].len() > 0
    &&& port_of(f[2]) is Some
}

/// The connection that a `/connect` line asks for: TLS when the third argument
/// is `true`; the certificate checked when the fourth is `true`, or, without a
/// fourth, when TLS is on.
pub open spec fn connect_matches(line: Seq<char>, c: Connection) -> bool {
    let f = fields(line);
    let tls = f.len() >= 4 && f[3] == "true"@;
    &&& c.host@ == f[1]
    &&& Some(c.port) == port_of(f[2])
    &&& c.tls == tls
    &&& c.verify_cert == if f.len() == 5 {
        f[4] == "true"@
    } else {
        tls
    }
}

/// `line` is one of the client's commands.
pub open spec fn is_command(line: Seq<char>) -> bool {
    ||| is_connect(line)
    ||| line == "/disconnect"@
    ||| line == "/reconnect"@
    ||| line == "/stop_log"@
    ||| line == "/quit"@
    ||| line == "/q"@
    ||| after("/start_log "@, line) is Some
    ||| after("/load "@, line) is Some
    ||| after("/help "@, line) is Some
    ||| after("/search "@, line) is Some
    ||| after("/s "@, line) is Some
}

/// `e` is the event that the command `line` raises.
pub open spec fn command_event(line: Seq<char>, e: Event) -> bool {
    if is_connect(line) {
        e matches Event::Connect(c) && connect_matches(line, c)
    } else if line == "/disconnect"@ {
        e is Disconnect
    } else if line == "/reconnect"@ {
        e is Reconnect
    } else if line == "/stop_log"@ {
        e is StopLogging
    } else if line == "/quit"@ || line == "/q"@ {
        e == Event::Quit(QuitMethod::Script)
    } else if after("/start_log "@, line) is Some {
        e matches Event::StartLogging(name, b) && Some(name@) == after("/start_log "@, line) && b
    } else if after("/load "@, line) is Some {
        e matches Event::LoadScript(p) && Some(p@) == after("/load "@, line)
    } else if after("/help "@, line) is Some {
        e matches Event::ShowHelp(topic, b) && Some(topic@) == after("/help "@, line) && b
    } else if after("/search "@, line) is Some {
        e matches Event::FindBackward(t) && Some(t@) == after("/search "@, line)
    } else {
        e matches Event::FindBackward(t) && Some(t@) == after("/s "@, line)
    }
}

/// The fields of `s`, as `fields` gives them.
fn split_fields(s: &str) -> (r: Vec<Vec<char>>)
    ensures
        r@.map_values(|v: Vec<char>| v@) == fields(s@),
{
    let n = s.unicode_len();
    let mut done: Vec<Vec<char>> = Vec::new();
    let mut cur: Vec<char> = Vec::new();
    let mut i: usize = 0;
    while i < n
        invariant
            n == s@.len(),
            i <= n,
            done@.map_values(|v: Vec<char>| v@).push(cur@) == fields(s@.subrange(0, i as int)),
        decreases n - i,
    {
        let c = s.get_char(i);
        let ghost pre = s@.subrange(0, i as int);
        let ghost next = s@.subrange(0, i + 1);
        assert(next.drop_last() =~= pre);
        let ghost before_done = done@.map_values(|v: Vec<char>| v@);
        let ghost before_cur = cur@;
        if c == ' ' {
            let mut field: Vec<char> = Vec::new();
            core::mem::swap(&mut field, &mut cur);
            done.push(field);
            assert(done@.map_values(|v: Vec<char>| v@) =~= before_done.push(before_cur));
        } else {
            cur.push(c);
        }
        assert(done@.map_values(|v: Vec<char>| v@).push(cur@) =~= fields(next));
        i += 1;
    }
    assert(s@.subrange(0, n as int) =~= s@);
    done.push(cur);
    assert(done@.map_values(|v: Vec<char>| v@) =~= fields(s@));
    done
}

/// What follows `prefix` in `line`, when `line` starts with it and goes on.
fn strip_prefix(line: &str, prefix: &str) -> (r: Option<String>)
    ensures
        r is Some == after(prefix@, line@) is Some,
        r matches Some(s) ==> Some(s@) == after(prefix@, line@),
{
    let n = prefix.unicode_len();
    let m = line.unicode_len();
    if n >= m {
        return None;
    }
    let mut i: usize = 0;
    while i < n
        invariant
            n == prefix@.len(),
            m == line@.len(),
            n < m,
            i <= n,
            forall|k: int| 0 <= k < i ==> line@[k] == prefix@[k],
        decreases n - i,
    {
        if line.get_char(i) != prefix.get_char(i) {
            assert(line@.subrange(0, n as int)[i as int] != prefix@[i as int]);
            return None;
        }
        i += 1;
    }
    assert(line@.subrange(0, n as int) =~= prefix@);
    Some(String::from_str(line.substring_char(n, m)))
}

/// One more digit keeps a value capped at 65536 in step with the uncapped value.
proof fn lemma_capped_step(v: int, d: int)
    requires
        v >= 0,
        0 <= d <= 9,
    ensures
        (if v < 65536 { v } else { 65536 }) * 10 + d >= 65536 ==> v * 10 + d >= 65536,
        v >= 65536 ==> v * 10 + d >= 65536,
{
    assert(v >= 65536 ==> v * 10 + d >= 65536) by (nonlinear_arith)
        requires
            v >= 0,
            d >= 0,
    ;
}

/// Values of digit strings are never negative.
proof fn lemma_digits_nonneg(s: Seq<char>)
    requires
        forall|i: int| 0 <= i < s.len() ==> is_digit(#[trigger] s[i]),
    ensures
        digits_value(s) >= 0,
    decreases s.len(),
{
    if s.len() > 0 {
        assert forall|i: int| 0 <= i < s.drop_last().len() implies is_digit(#[trigger] s.drop_last()[i]) by {
            assert(s.drop_last()[i] == s[i]);
        }
        lemma_digits_nonneg(s.drop_last());
    }
}

/// The port that `s` writes, as `port_of` gives it.
fn parse_port(s: &Vec<char>) -> (r: Option<u16>)
    ensures
        r == port_of(s@),
{
    if s.len() == 0 {
        return None;
    }
    let mut value: u32 = 0;
    let mut i: usize = 0;
    while i < s.len()
        invariant
            i <= s.len(),
            forall|k: int| 0 <= k < i ==> is_digit(#[trigger] s@[k]),
            value as int == if digits_value(s@.subrange(0, i as int)) < 65536 {
                digits_value(s@.subrange(0, i as int))
            } else {
                65536
            },
        decreases s.len() - i,
    {
        let c = s[i];
        if !('0' <= c && c <= '9') {
            return None;
        }
        let d = (c as u32) - ('0' as u32);
        let ghost pre = s@.subrange(0, i as int);
        let ghost next = s@.subrange(0, i + 1);
        proof {
            assert(next.drop_last() =~= pre);
            assert forall|k: int| 0 <= k < pre.len() implies is_digit(#[trigger] pre[k]) by {
                assert(pre[k] == s@[k]);
            }
            lemma_digits_nonneg(pre);
            lemma_capped_step(digits_value(pre), d as int);
        }
        let next_value = value * 10 + d;
        value = if next_value < 65536 {
            next_value
        } else {
            65536
        };
        i += 1;
    }
    assert(s@.subrange(0, i as int) =~= s@);
    if value <= 65535 {
        Some(value as u16)
    } else {
        None
    }
}

/// Whether `chars` spell `word`.
fn spells(chars: &Vec<char>, word: &str) -> (r: bool)
    ensures
        r == (chars@ == word@),
{
    let s = string_from_chars(chars);
    str_eq(s.as_str(), word)
}

/// The event of the command `line`, if it is one.
pub fn parse_command(line: &str) -> (r: Option<Event>)
    ensures
        r is Some == is_command(line@),
        r matches Some(e) ==> command_event(line@, e),
{
    let f = split_fields(line);
    let ghost fv = f@.map_values(|v: Vec<char>| v@);
    if 3 <= f.len() && f.len() <= 5 && spells(&f[0], "/connect") && f[1].len() > 0 {
        assert(f@[0]@ == fv[0] && f@[1]@ == fv[1] && f@[2]@ == fv[2]);
        if let Some(port) = parse_port(&f[2]) {
            let tls = f.len() >= 4 && spells(&f[3], "true");
            let verify_cert = if f.len() == 5 {
                spells(&f[4], "true")
            } else {
                tls
            };
            proof {
                if f.len() >= 4 {
                    assert(f@[3]@ == fv[3]);
                }
                if f.len() == 5 {
                    assert(f@[4]@ == fv[4]);
                }
            }
            let host = string_from_chars(&f[1]);
            return Some(Event::Connect(Connection { host, port, tls, verify_cert }));
        }
    }
    proof {
        if is_connect(line@) {
            assert(f@[0]@ == fv[0] && f@[1]@ == fv[1] && f@[2]@ == fv[2]);
        }
    }
    if str_eq(line, "/disconnect") {
        return Some(Event::Disconnect);
    }
    if str_eq(line, "/reconnect") {
        return Some(Event::Reconnect);
    }
    if str_eq(line, "/stop_log") {
        return Some(Event::StopLogging);
    }
    if str_eq(line, "/quit") || str_eq(line, "/q") {
        return Some(Event::Quit(QuitMethod::Script));
    }
    if let Some(name) = strip_prefix(line, "/start_log ") {
        return Some(Event::StartLogging(name, true));
    }
    if let Some(path) = strip_prefix(line, "/load ") {
        return Some(Event::LoadScript(path));
    }
    if let Some(topic) = strip_prefix(line, "/help ") {
        return Some(Event::ShowHelp(topic, true));
    }
    if let Some(text) = strip_prefix(line, "/search ") {
        return Some(Event::FindBackward(text));
    }
    if let Some(text) = strip_prefix(line, "/s ") {
        return Some(Event::FindBackward(text));
    }
    None
}

} // verus!
