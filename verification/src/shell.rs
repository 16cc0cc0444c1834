//! The management shell's command-line handling: splitting a line into
//! tokens, taking `--timeout` options out of it, and reading a one-shot
//! `call`/`notify` command.
use vstd::prelude::*;
use crate::text::{chars_of, push_all, str_eq, string_of};

verus! {

/// The Unicode `White_Space` characters (what `char::is_whitespace` accepts).
pub open spec fn is_white_space(c: char) -> bool {
    let n = c as u32;
    (0x09 <= n && n <= 0x0D) || n == 0x20 || n == 0x85 || n == 0xA0 || n == 0x1680
        || (0x2000 <= n && n <= 0x200A) || n == 0x2028 || n == 0x2029 || n == 0x202F
        || n == 0x205F || n == 0x3000
}

/// Lower-cases a string as `str::to_lowercase` does (Unicode case mapping).
pub uninterp spec fn lowercase(s: Seq<char>) -> Seq<char>;

/// Whether `c` is a Unicode `White_Space` character (as `char::is_whitespace`).
fn char_is_whitespace(c: char) -> (r: bool)
    ensures
        r == is_white_space(c),
{
    let n = c as u32;
    (0x09 <= n && n <= 0x0D) || n == 0x20 || n == 0x85 || n == 0xA0 || n == 0x1680
        || (0x2000 <= n && n <= 0x200A) || n == 0x2028 || n == 0x2029 || n == 0x202F
        || n == 0x205F || n == 0x3000
}

/// Every character is ASCII.
pub open spec fn all_ascii(s: Seq<char>) -> bool {
    forall|i: int| 0 <= i < s.len() ==> (#[trigger] s[i] as u32) < 128
}

/// ASCII upper-case letters made lower-case, every other character kept.
pub open spec fn ascii_lower(s: Seq<char>) -> Seq<char> {
    s.map_values(|c: char| if 'A' <= c && c <= 'Z' { ((c as u32) + 32) as char } else { c })
}

/// Calls `str::to_lowercase`; claims that the result is a function of the
/// input and that, on ASCII text, it lower-cases the letters `A`-`Z` and keeps
/// every other character (the rest of the Unicode mapping is left unstated).
#[verifier::external_body]
fn to_lowercase(s: &str) -> (r: String)
    ensures
        r@ == lowercase(s@),
        all_ascii(s@) ==> r@ == ascii_lower(s@),
{
    s.to_lowercase()
}

/// The value of a string of decimal digits.
pub open spec fn digits_value(ds: Seq<char>) -> nat
    decreases ds.len(),
{
    if ds.len() == 0 {
        0
    } else {
        10 * digits_value(ds.drop_last()) + ((ds.last() as u32) - ('0' as u32)) as nat
    }
}

/// Every character is an ASCII digit.
pub open spec fn all_digits(ds: Seq<char>) -> bool {
    forall|i: int| 0 <= i < ds.len() ==> '0' <= #[trigger] ds[i] && ds[i] <= '9'
}

/// What `str::parse::<u64>` gives: an optional `+`, then one or more ASCII
/// digits whose value fits in 64 bits.
pub open spec fn parse_u64(s: Seq<char>) -> Option<u64> {
    let ds = if s.len() > 0 && s[0] == '+' { s.drop_first() } else { s };
    if ds.len() == 0 || !all_digits(ds) || digits_value(ds) > u64::MAX {
        None
    } else {
        Some(digits_value(ds) as u64)
    }
}

proof fn lemma_digits_value_monotone(ds: Seq<char>, i: int)
    requires
        0 <= i <= ds.len(),
        all_digits(ds),
    ensures
        digits_value(ds.take(i)) <= digits_value(ds),
    decreases ds.len() - i,
{
    if i < ds.len() {
        lemma_digits_value_monotone(ds, i + 1);
        assert(ds.take(i + 1).drop_last() =~= ds.take(i));
    } else {
        assert(ds.take(i) =~= ds);
    }
}

/// Parses a decimal `u64` as `str::parse::<u64>` does.
pub fn parse_u64_str(s: &str) -> (r: Option<u64>)
    ensures
        r == parse_u64(s@),
{
    let cs = chars_of(s);
    let start: usize = if cs.len() > 0 && cs[0] == '+' { 1 } else { 0 };
    let ghost ds = if s@.len() > 0 && s@[0] == '+' { s@.drop_first() } else { s@ };
    assert(cs@.skip(start as int) =~= ds);
    if start == cs.len() {
        return None;
    }
    let mut value: u64 = 0;
    let mut i: usize = start;
    while i < cs.len()
        invariant
            start <= i <= cs.len(),
            cs@ == s@,
            ds == (if s@.len() > 0 && s@[0] == '+' { s@.drop_first() } else { s@ }),
            ds.len() > 0,
            cs@.skip(start as int) == ds,
            all_digits(ds.take(i - start)),
            value == digits_value(ds.take(i - start)),
        decreases cs.len() - i,
    {
        let c = cs[i];
        assert(ds[i - start] == c);
        if c < '0' || c > '9' {
            assert(!all_digits(ds));
            assert(parse_u64(s@) is None);
            return None;
        }
        let d = (c as u32 - '0' as u32) as u64;
        assert(ds.take(i - start + 1).drop_last() =~= ds.take(i - start));
        assert(ds.take(i - start + 1).last() == c);
        if value > (u64::MAX - d) / 10 {
            proof {
                assert(all_digits(ds.take(i - start + 1)));
                assert(digits_value(ds.take(i - start + 1)) == 10 * value + d);
                assert(10 * value + d > u64::MAX) by (nonlinear_arith)
                    requires
                        value > (u64::MAX - d) / 10,
                        d <= 9,
                ;
                if all_digits(ds) {
                    lemma_digits_value_monotone(ds, i - start + 1);
                }
                assert(parse_u64(s@) is None);
            }
            return None;
        }
        assert(10 * value + d <= u64::MAX) by (nonlinear_arith)
            requires
                value <= (u64::MAX - d) / 10,
                d <= 9,
        ;
        value = value * 10 + d;
        i = i + 1;
    }
    assert(ds.take(cs.len() - start) =~= ds);
    Some(value)
}

/// Whether `p` is a prefix of `s`; if so, the rest of `s`.
fn strip_prefix_chars(s: &Vec<char>, p: &Vec<char>) -> (r: Option<Vec<char>>)
    ensures
        match r {
            Some(rest) => p@.is_prefix_of(s@) && rest@ == s@.skip(p@.len() as int),
            None => !p@.is_prefix_of(s@),
        },
{
    if p.len() > s.len() {
        return None;
    }
    let mut i: usize = 0;
    while i < p.len()
        invariant
            p.len() <= s.len(),
            i <= p.len(),
            forall|j: int| 0 <= j < i ==> s@[j] == p@[j],
        decreases p.len() - i,
    {
        if s[i] != p[i] {
            assert(s@.take(p.len() as int)[i as int] != p@[i as int]);
            return None;
        }
        i = i + 1;
    }
    assert(s@.take(p.len() as int) =~= p@);
    let mut rest: Vec<char> = Vec::new();
    let mut k: usize = p.len();
    while k < s.len()
        invariant
            p.len() <= k <= s.len(),
            rest@ =~= s@.subrange(p.len() as int, k as int),
        decreases s.len() - k,
    {
        rest.push(s[k]);
        k = k + 1;
    }
    Some(rest)
}

/// A timeout option at token `i`: `--timeout <n>` or `-t <n>` (two tokens),
/// `-t<n>` or `--timeout=<n>` (one token); its value and width.
pub open spec fn timeout_option(tokens: Seq<Seq<char>>, i: int) -> Option<(u64, int)> {
    let tok = tokens[i];
    if (tok == "--timeout"@ || tok == "-t"@) && i + 1 < tokens.len() {
        match parse_u64(tokens[i + 1]) {
            Some(v) => Some((v, 2)),
            None => None,
        }
    } else if "-t"@.is_prefix_of(tok) {
        match parse_u64(tok.skip("-t"@.len() as int)) {
            Some(v) => Some((v, 1)),
            None => None,
        }
    } else if "--timeout="@.is_prefix_of(tok) {
        match parse_u64(tok.skip("--timeout="@.len() as int)) {
            Some(v) => Some((v, 1)),
            None => None,
        }
    } else {
        None
    }
}

/// The timeout (the last option's value, else `t`) and the tokens that are not
/// timeout options, reading from token `i` on.
pub open spec fn extract_from(tokens: Seq<Seq<char>>, i: int, t: u64) -> (u64, Seq<Seq<char>>)
    decreases tokens.len() - i,
{
    if i < 0 || i >= tokens.len() {
        (t, Seq::empty())
    } else {
        match timeout_option(tokens, i) {
            Some(o) => if o.1 > 0 { extract_from(tokens, i + o.1, o.0) } else { (t, Seq::empty()) },
            None => {
                let rest = extract_from(tokens, i + 1, t);
                (rest.0, seq![tokens[i]] + rest.1)
            },
        }
    }
}

/// The models of a list of strings.
pub open spec fn strings_view(v: Seq<String>) -> Seq<Seq<char>> {
    v.map_values(|s: String| s@)
}

fn timeout_option_exec(tokens: &Vec<String>, i: usize) -> (r: Option<(u64, usize)>)
    requires
        i < tokens.len(),
    ensures
        match timeout_option(strings_view(tokens@), i as int) {
            Some(o) => r matches Some(x) && x.0 == o.0 && x.1 == o.1,
            None => r is None,
        },
{
    let ghost tv = strings_view(tokens@);
    let tok = tokens[i].as_str();
    if (str_eq(tok, "--timeout") || str_eq(tok, "-t")) && i + 1 < tokens.len() {
        match parse_u64_str(tokens[i + 1].as_str()) {
            Some(v) => Some((v, 2)),
            None => None,
        }
    } else {
        let cs = chars_of(tok);
        let short = chars_of("-t");
        match strip_prefix_chars(&cs, &short) {
            Some(rest) => {
                let rs = string_of(&rest);
                match parse_u64_str(rs.as_str()) {
                    Some(v) => Some((v, 1)),
                    None => None,
                }
            },
            None => {
                let long = chars_of("--timeout=");
                match strip_prefix_chars(&cs, &long) {
                    Some(rest) => {
                        let rs = string_of(&rest);
                        match parse_u64_str(rs.as_str()) {
                            Some(v) => Some((v, 1)),
                            None => None,
                        }
                    },
                    None => None,
                }
            },
        }
    }
}

/// Takes `--timeout`/`-t` options out of `tokens` (see [`extract_from`]),
/// returning the timeout in force (`default_secs` if none) and the rest.
pub fn extract_timeout(tokens: Vec<String>, default_secs: u64) -> (r: (u64, Vec<String>))
    ensures
        r.0 == extract_from(strings_view(tokens@), 0, default_secs).0,
        strings_view(r.1@) == extract_from(strings_view(tokens@), 0, default_secs).1,
{
    let ghost tv = strings_view(tokens@);
    let mut timeout = default_secs;
    let mut remaining: Vec<String> = Vec::new();
    let mut i: usize = 0;
    while i < tokens.len()
        invariant
            i <= tokens.len(),
            tv == strings_view(tokens@),
            extract_from(tv, 0, default_secs).0 == extract_from(tv, i as int, timeout).0,
            extract_from(tv, 0, default_secs).1 == strings_view(remaining@) + extract_from(tv, i as int, timeout).1,
        decreases tokens.len() - i,
    {
        match timeout_option_exec(&tokens, i) {
            Some((v, w)) => {
                timeout = v;
                i = i + w;
            },
            None => {
                let ghost r0 = strings_view(remaining@);
                let ghost rest = extract_from(tv, i + 1, timeout);
                remaining.push(tokens[i].clone());
                assert(strings_view(remaining@) =~= r0.push(tv[i as int]));
                assert(r0 + (seq![tv[i as int]] + rest.1) =~= r0.push(tv[i as int]) + rest.1);
                i = i + 1;
            },
        }
    }
    assert(strings_view(remaining@) + Seq::<Seq<char>>::empty() =~= strings_view(remaining@));
    (timeout, remaining)
}

/// Words joined by single spaces.
pub open spec fn join_words(ws: Seq<Seq<char>>) -> Seq<char>
    decreases ws.len(),
{
    if ws.len() == 0 {
        Seq::empty()
    } else if ws.len() == 1 {
        ws[0]
    } else {
        join_words(ws.drop_last()) + seq![' '] + ws.last()
    }
}

/// A one-shot command whose first argument lower-cases to `t`: `call` or
/// `notify`, a target, and the remaining arguments joined by spaces as data.
pub open spec fn one_shot_from(t: Seq<char>, args: Seq<Seq<char>>) -> Option<(Seq<char>, Seq<char>, Seq<char>)> {
    if args.len() == 0 {
        None
    } else if t != "call"@ && t != "notify"@ {
        None
    } else if args.len() < 2 {
        None
    } else {
        Some((t, args[1], if args.len() > 2 { join_words(args.skip(2)) } else { Seq::empty() }))
    }
}

/// The command a one-shot shell invocation asks for: `call` or `notify`
/// (the first argument, lower-cased), a target, and the remaining arguments
/// joined by spaces as data.
pub open spec fn one_shot_command(args: Seq<Seq<char>>) -> Option<(Seq<char>, Seq<char>, Seq<char>)> {
    if args.len() == 0 {
        None
    } else {
        one_shot_from(lowercase(args[0]), args)
    }
}

/// Reads a one-shot command (see [`one_shot_command`]); a first argument in
/// ASCII is lower-cased letter by letter.
pub fn parse_args(args: &Vec<String>) -> (r: Option<(String, String, String)>)
    ensures
        match one_shot_command(strings_view(args@)) {
            Some(c) => r matches Some(x) && x.0@ == c.0 && x.1@ == c.1 && x.2@ == c.2,
            None => r is None,
        },
        args@.len() > 0 && all_ascii(args@[0]@) ==> match one_shot_from(ascii_lower(args@[0]@), strings_view(args@)) {
            Some(c) => r matches Some(x) && x.0@ == c.0 && x.1@ == c.1 && x.2@ == c.2,
            None => r is None,
        },
{
    let ghost av = strings_view(args@);
    if args.len() == 0 {
        return None;
    }
    let msg_type = to_lowercase(args[0].as_str());
    if !str_eq(msg_type.as_str(), "call") && !str_eq(msg_type.as_str(), "notify") {
        return None;
    }
    if args.len() < 2 {
        return None;
    }
    let target = args[1].clone();
    let mut data: Vec<char> = Vec::new();
    if args.len() > 2 {
        let ghost ws = av.skip(2);
        let mut i: usize = 2;
        while i < args.len()
            invariant
                2 <= i <= args.len(),
                av == strings_view(args@),
                ws == av.skip(2),
                data@ == join_words(ws.take(i - 2)),
            decreases args.len() - i,
        {
            let ghost d0 = data@;
            assert(ws.take(i - 1).drop_last() =~= ws.take(i - 2));
            assert(ws.take(i - 1).last() == av[i as int]);
            if i > 2 {
                data.push(' ');
            }
            push_all(&mut data, &chars_of(args[i].as_str()));
            proof {
                if i == 2 {
                    assert(d0 =~= Seq::<char>::empty());
                    assert(data@ =~= av[i as int]);
                } else {
                    assert(data@ =~= d0 + seq![' '] + av[i as int]);
                }
            }
            i = i + 1;
        }
        assert(ws.take(args.len() - 2) =~= ws);
    }
    Some((msg_type, target, string_of(&data)))
}

/// Skips whitespace from position `i`.
pub open spec fn skip_white(cs: Seq<char>, i: int) -> int
    decreases cs.len() - i,
{
    if i < 0 || i >= cs.len() || !is_white_space(cs[i]) {
        i
    } else {
        skip_white(cs, i + 1)
    }
}

/// A quoted token's characters from position `i` up to the closing quote `q`
/// (a backslash takes the next character literally), and the position after it.
pub open spec fn read_quoted(cs: Seq<char>, i: int, q: char) -> (Seq<char>, int)
    decreases cs.len() - i,
{
    if i < 0 || i >= cs.len() {
        (Seq::empty(), cs.len() as int)
    } else if cs[i] == q {
        (Seq::empty(), i + 1)
    } else if cs[i] == '\\' && i + 1 < cs.len() {
        let rest = read_quoted(cs, i + 2, q);
        (seq![cs[i + 1]] + rest.0, rest.1)
    } else {
        let rest = read_quoted(cs, i + 1, q);
        (seq![cs[i]] + rest.0, rest.1)
    }
}

/// A bare token's characters from position `i` up to whitespace or the end,
/// and the position after it.
pub open spec fn read_bare(cs: Seq<char>, i: int) -> (Seq<char>, int)
    decreases cs.len() - i,
{
    if i < 0 || i >= cs.len() || is_white_space(cs[i]) {
        (Seq::empty(), i)
    } else {
        let rest = read_bare(cs, i + 1);
        (seq![cs[i]] + rest.0, rest.1)
    }
}

/// The tokens of `cs` from position `i`: whitespace separates tokens; a token
/// starting with `'` or `"` runs to the matching quote (see [`read_quoted`]).
pub open spec fn tokens_from(cs: Seq<char>, i: int) -> Seq<Seq<char>>
    decreases cs.len() - i,
{
    if i < 0 {
        Seq::empty()
    } else {
        let j = skip_white(cs, i);
        if j >= cs.len() || j < i {
            Seq::empty()
        } else if cs[j] == '\'' || cs[j] == '"' {
            let t = read_quoted(cs, j + 1, cs[j]);
            if t.1 > j && t.1 <= cs.len() {
                seq![t.0] + tokens_from(cs, t.1)
            } else {
                Seq::empty()
            }
        } else {
            let t = read_bare(cs, j);
            if t.1 > j && t.1 <= cs.len() {
                seq![t.0] + tokens_from(cs, t.1)
            } else {
                Seq::empty()
            }
        }
    }
}

proof fn lemma_skip_white(cs: Seq<char>, i: int)
    requires
        0 <= i <= cs.len(),
    ensures
        i <= skip_white(cs, i) <= cs.len(),
        skip_white(cs, i) < cs.len() ==> !is_white_space(cs[skip_white(cs, i)]),
    decreases cs.len() - i,
{
    if i < cs.len() && is_white_space(cs[i]) {
        lemma_skip_white(cs, i + 1);
    }
}

proof fn lemma_read_quoted(cs: Seq<char>, i: int, q: char)
    requires
        0 <= i <= cs.len(),
    ensures
        i <= read_quoted(cs, i, q).1 <= cs.len(),
        i < cs.len() ==> i < read_quoted(cs, i, q).1,
    decreases cs.len() - i,
{
    if i < cs.len() && cs[i] != q {
        if cs[i] == '\\' && i + 1 < cs.len() {
            lemma_read_quoted(cs, i + 2, q);
        } else {
            lemma_read_quoted(cs, i + 1, q);
        }
    }
}

proof fn lemma_read_bare(cs: Seq<char>, i: int)
    requires
        0 <= i <= cs.len(),
    ensures
        i <= read_bare(cs, i).1 <= cs.len(),
        i < cs.len() && !is_white_space(cs[i]) ==> i < read_bare(cs, i).1,
    decreases cs.len() - i,
{
    if i < cs.len() && !is_white_space(cs[i]) {
        lemma_read_bare(cs, i + 1);
    }
}

/// The pieces of `cs` between whitespace characters, empty pieces included
/// (as `str::split` with `char::is_whitespace` gives them).
pub open spec fn white_pieces(cs: Seq<char>) -> Seq<Seq<char>>
    decreases cs.len(),
{
    if cs.len() == 0 {
        seq![Seq::<char>::empty()]
    } else {
        let rest = white_pieces(cs.drop_first());
        if is_white_space(cs[0]) {
            seq![Seq::<char>::empty()] + rest
        } else {
            seq![seq![cs[0]] + rest[0]] + rest.drop_first()
        }
    }
}

/// The non-empty words of `ws`, in order.
pub open spec fn non_empty_words(ws: Seq<Seq<char>>) -> Seq<Seq<char>>
    decreases ws.len(),
{
    if ws.len() == 0 {
        ws
    } else if ws[0].len() == 0 {
        non_empty_words(ws.drop_first())
    } else {
        seq![ws[0]] + non_empty_words(ws.drop_first())
    }
}

/// What `str::split_whitespace` gives: the non-empty pieces between
/// whitespace characters.
pub open spec fn split_whitespace(cs: Seq<char>) -> Seq<Seq<char>> {
    non_empty_words(white_pieces(cs))
}

proof fn lemma_pieces_nonempty(cs: Seq<char>)
    ensures
        white_pieces(cs).len() >= 1,
    decreases cs.len(),
{
    if cs.len() > 0 {
        lemma_pieces_nonempty(cs.drop_first());
    }
}

proof fn lemma_pieces_white(cs: Seq<char>, i: int)
    requires
        0 <= i < cs.len(),
        is_white_space(cs[i]),
    ensures
        white_pieces(cs.skip(i)) == seq![Seq::<char>::empty()] + white_pieces(cs.skip(i + 1)),
{
    assert(cs.skip(i).drop_first() =~= cs.skip(i + 1));
    assert(cs.skip(i)[0] == cs[i]);
}

proof fn lemma_pieces_bare(cs: Seq<char>, j: int)
    requires
        0 <= j <= cs.len(),
    ensures
        ({
            let (w, k) = read_bare(cs, j);
            &&& j <= k <= cs.len()
            &&& white_pieces(cs.skip(j)).len() >= 1
            &&& white_pieces(cs.skip(k)).len() >= 1
            &&& white_pieces(cs.skip(j))[0] == w + white_pieces(cs.skip(k))[0]
            &&& white_pieces(cs.skip(j)).drop_first() == white_pieces(cs.skip(k)).drop_first()
        }),
    decreases cs.len() - j,
{
    lemma_pieces_nonempty(cs.skip(j));
    if j < cs.len() && !is_white_space(cs[j]) {
        lemma_pieces_bare(cs, j + 1);
        lemma_pieces_nonempty(cs.skip(j + 1));
        assert(cs.skip(j).drop_first() =~= cs.skip(j + 1));
        assert(cs.skip(j)[0] == cs[j]);
        let k = read_bare(cs, j + 1).1;
        let w = read_bare(cs, j + 1).0;
        assert(seq![cs[j]] + (w + white_pieces(cs.skip(k))[0]) =~= (seq![cs[j]] + w) + white_pieces(cs.skip(k))[0]);
        assert((seq![seq![cs[j]] + white_pieces(cs.skip(j + 1))[0]] + white_pieces(cs.skip(j + 1)).drop_first()).drop_first()
            =~= white_pieces(cs.skip(j + 1)).drop_first());
    } else {
        assert(Seq::<char>::empty() + white_pieces(cs.skip(j))[0] =~= white_pieces(cs.skip(j))[0]);
    }
}

/// The first piece after a bare token is empty.
proof fn lemma_pieces_after_bare(cs: Seq<char>, k: int)
    requires
        0 <= k <= cs.len(),
        k < cs.len() ==> is_white_space(cs[k]),
    ensures
        white_pieces(cs.skip(k)).len() >= 1,
        white_pieces(cs.skip(k))[0] == Seq::<char>::empty(),
        split_whitespace(cs.skip(k)) == non_empty_words(white_pieces(cs.skip(k)).drop_first()),
{
    lemma_pieces_nonempty(cs.skip(k));
    if k < cs.len() {
        lemma_pieces_white(cs, k);
        assert((seq![Seq::<char>::empty()] + white_pieces(cs.skip(k + 1))).drop_first() =~= white_pieces(cs.skip(k + 1)));
    } else {
        assert(cs.skip(k) =~= Seq::<char>::empty());
        assert(white_pieces(cs.skip(k)).drop_first() =~= Seq::<Seq<char>>::empty());
    }
}

proof fn lemma_split_skip_white(cs: Seq<char>, i: int)
    requires
        0 <= i <= cs.len(),
    ensures
        split_whitespace(cs.skip(i)) == split_whitespace(cs.skip(skip_white(cs, i))),
    decreases cs.len() - i,
{
    if i < cs.len() && is_white_space(cs[i]) {
        lemma_pieces_white(cs, i);
        lemma_split_skip_white(cs, i + 1);
        let ws = seq![Seq::<char>::empty()] + white_pieces(cs.skip(i + 1));
        assert(ws.drop_first() =~= white_pieces(cs.skip(i + 1)));
    }
}

/// From any position, a line without quote characters tokenizes as its
/// rest splits on whitespace.
pub proof fn lemma_tokens_split(cs: Seq<char>, i: int)
    requires
        0 <= i <= cs.len(),
        forall|n: int| 0 <= n < cs.len() ==> cs[n] != '\'' && cs[n] != '"',
    ensures
        tokens_from(cs, i) == split_whitespace(cs.skip(i)),
    decreases cs.len() - i,
{
    lemma_skip_white(cs, i);
    lemma_split_skip_white(cs, i);
    let j = skip_white(cs, i);
    if j >= cs.len() {
        assert(cs.skip(j) =~= Seq::<char>::empty());
        assert(white_pieces(cs.skip(j)) =~= seq![Seq::<char>::empty()]);
        let ws = seq![Seq::<char>::empty()];
        assert(ws[0].len() == 0);
        assert(ws.drop_first() =~= Seq::<Seq<char>>::empty());
        assert(non_empty_words(ws.drop_first()).len() == 0);
        assert(non_empty_words(ws).len() == 0);
        assert(tokens_from(cs, i) =~= Seq::<Seq<char>>::empty());
    } else {
        lemma_read_bare(cs, j);
        lemma_pieces_bare(cs, j);
        let (w, k) = read_bare(cs, j);
        lemma_read_bare_stops(cs, j);
        lemma_pieces_after_bare(cs, k);
        lemma_tokens_split(cs, k);
        let pj = white_pieces(cs.skip(j));
        assert(w + Seq::<char>::empty() =~= w);
        assert(pj[0] == w);
        assert(w.len() > 0) by {
            lemma_read_bare_first(cs, j);
        }
        assert(pj =~= seq![pj[0]] + pj.drop_first());
        assert(non_empty_words(pj) == seq![w] + non_empty_words(pj.drop_first()));
    }
}

proof fn lemma_read_bare_stops(cs: Seq<char>, j: int)
    requires
        0 <= j <= cs.len(),
    ensures
        read_bare(cs, j).1 < cs.len() ==> is_white_space(cs[read_bare(cs, j).1]),
    decreases cs.len() - j,
{
    if j < cs.len() && !is_white_space(cs[j]) {
        lemma_read_bare_stops(cs, j + 1);
    }
}

proof fn lemma_read_bare_first(cs: Seq<char>, j: int)
    requires
        0 <= j < cs.len(),
        !is_white_space(cs[j]),
    ensures
        read_bare(cs, j).0.len() > 0,
{
}

/// Splits a shell line into tokens (see [`tokens_from`]).
pub fn shell_tokenize(input: &str) -> (r: Vec<String>)
    ensures
        strings_view(r@) == tokens_from(input@, 0),
{
    let chars = chars_of(input);
    let ghost cs = input@;
    let mut tokens: Vec<String> = Vec::new();
    let mut i: usize = 0;
    while i < chars.len()
        invariant
            cs == chars@,
            i <= chars.len(),
            tokens_from(cs, 0) == strings_view(tokens@) + tokens_from(cs, i as int),
        decreases chars.len() - i,
    {
        let ghost start = i as int;
        let ghost t0 = strings_view(tokens@);
        proof {
            lemma_skip_white(cs, start);
        }
        while i < chars.len() && char_is_whitespace(chars[i])
            invariant
                cs == chars@,
                start <= i <= chars.len(),
                skip_white(cs, i as int) == skip_white(cs, start),
            decreases chars.len() - i,
        {
            i = i + 1;
        }
        let ghost j = i as int;
        assert(j == skip_white(cs, start));
        if i >= chars.len() {
            assert(tokens_from(cs, start) =~= Seq::<Seq<char>>::empty());
            assert(strings_view(tokens@) + Seq::<Seq<char>>::empty() =~= strings_view(tokens@));
        } else {
        let mut token: Vec<char> = Vec::new();
        if chars[i] == '\'' || chars[i] == '"' {
            let quote = chars[i];
            i = i + 1;
            proof {
                lemma_read_quoted(cs, j + 1, quote);
            }
            while i < chars.len() && chars[i] != quote
                invariant
                    cs == chars@,
                    j + 1 <= i <= chars.len(),
                    read_quoted(cs, j + 1, quote).0 == token@ + read_quoted(cs, i as int, quote).0,
                    read_quoted(cs, j + 1, quote).1 == read_quoted(cs, i as int, quote).1,
                decreases chars.len() - i,
            {
                let ghost k0 = token@;
                if chars[i] == '\\' && i + 1 < chars.len() {
                    i = i + 1;
                    token.push(chars[i]);
                } else {
                    token.push(chars[i]);
                }
                i = i + 1;
                assert(k0 + (seq![cs[i - 1]] + read_quoted(cs, i as int, quote).0) =~= token@ + read_quoted(cs, i as int, quote).0);
            }
            if i < chars.len() {
                i = i + 1;
            }
            assert(token@ + Seq::<char>::empty() =~= token@);
        } else {
            proof {
                lemma_read_bare(cs, j);
            }
            while i < chars.len() && !char_is_whitespace(chars[i])
                invariant
                    cs == chars@,
                    j <= i <= chars.len(),
                    read_bare(cs, j).0 == token@ + read_bare(cs, i as int).0,
                    read_bare(cs, j).1 == read_bare(cs, i as int).1,
                decreases chars.len() - i,
            {
                let ghost k0 = token@;
                token.push(chars[i]);
                i = i + 1;
                assert(k0 + (seq![cs[i - 1]] + read_bare(cs, i as int).0) =~= token@ + read_bare(cs, i as int).0);
            }
            assert(token@ + Seq::<char>::empty() =~= token@);
        }
        let s = string_of(&token);
        tokens.push(s);
        assert(strings_view(tokens@) =~= t0.push(token@));
        assert(t0 + tokens_from(cs, start) =~= strings_view(tokens@) + tokens_from(cs, i as int));
        }
    }
    assert(strings_view(tokens@) + tokens_from(cs, chars.len() as int) =~= strings_view(tokens@)) by {
        assert(tokens_from(cs, chars.len() as int) =~= Seq::<Seq<char>>::empty());
    }
    tokens
}


/// A shell line that the shell handles itself.
#[derive(Debug, Clone, Copy, PartialEq, Eq, Structural)]
pub enum Builtin {
    Exit,
    Help,
}

/// The builtin named by a line that lower-cases to `l`: `exit`/`quit` or `help`.
pub open spec fn builtin_named(l: Seq<char>) -> Option<Builtin> {
    if l == "exit"@ || l == "quit"@ {
        Some(Builtin::Exit)
    } else if l == "help"@ {
        Some(Builtin::Help)
    } else {
        None
    }
}

/// `exit`/`quit` and `help`, in any case.
pub open spec fn builtin_of(line: Seq<char>) -> Option<Builtin> {
    builtin_named(lowercase(line))
}

/// Recognises a builtin shell command (see [`builtin_of`]); an ASCII line is
/// lower-cased letter by letter.
pub fn builtin_kind(line: &str) -> (r: Option<Builtin>)
    ensures
        r == builtin_of(line@),
        all_ascii(line@) ==> r == builtin_named(ascii_lower(line@)),
{
    let lower = to_lowercase(line);
    if str_eq(lower.as_str(), "exit") || str_eq(lower.as_str(), "quit") {
        Some(Builtin::Exit)
    } else if str_eq(lower.as_str(), "help") {
        Some(Builtin::Help)
    } else {
        None
    }
}

/// What the interactive shell makes of a tokenized line.
pub enum ReplCommand {
    /// Nothing to do.
    Empty,
    /// A command other than `call` or `notify` (lower-cased).
    Unknown(String),
    /// `call` or `notify` without a target.
    Usage(String),
    /// Send a message: type, target and data.
    Send(String, String, String),
}

/// The model of a [`ReplCommand`].
pub enum ReplCommandModel {
    Empty,
    Unknown(Seq<char>),
    Usage(Seq<char>),
    Send(Seq<char>, Seq<char>, Seq<char>),
}

impl View for ReplCommand {
    type V = ReplCommandModel;

    open spec fn view(&self) -> ReplCommandModel {
        match self {
            ReplCommand::Empty => ReplCommandModel::Empty,
            ReplCommand::Unknown(t) => ReplCommandModel::Unknown(t@),
            ReplCommand::Usage(t) => ReplCommandModel::Usage(t@),
            ReplCommand::Send(t, g, d) => ReplCommandModel::Send(t@, g@, d@),
        }
    }
}

/// The reading of a line's tokens whose first token lower-cases to `t`.
pub open spec fn repl_command_from(t: Seq<char>, tokens: Seq<Seq<char>>) -> ReplCommandModel {
    if tokens.len() == 0 {
        ReplCommandModel::Empty
    } else if t != "call"@ && t != "notify"@ {
        ReplCommandModel::Unknown(t)
    } else if tokens.len() < 2 {
        ReplCommandModel::Usage(t)
    } else {
        ReplCommandModel::Send(t, tokens[1], if tokens.len() > 2 { join_words(tokens.skip(2)) } else { Seq::empty() })
    }
}

/// The interactive shell's reading of a line's tokens (timeout options
/// already removed).
pub open spec fn repl_command_of(tokens: Seq<Seq<char>>) -> ReplCommandModel {
    if tokens.len() == 0 {
        ReplCommandModel::Empty
    } else {
        repl_command_from(lowercase(tokens[0]), tokens)
    }
}

/// Reads a tokenized shell line (see [`repl_command_of`]); a first token in
/// ASCII is lower-cased letter by letter.
pub fn repl_command(tokens: &Vec<String>) -> (r: ReplCommand)
    ensures
        r@ == repl_command_of(strings_view(tokens@)),
        tokens@.len() > 0 && all_ascii(tokens@[0]@) ==> r@ == repl_command_from(ascii_lower(tokens@[0]@), strings_view(tokens@)),
{
    if tokens.len() == 0 {
        return ReplCommand::Empty;
    }
    let msg_type = to_lowercase(tokens[0].as_str());
    if !str_eq(msg_type.as_str(), "call") && !str_eq(msg_type.as_str(), "notify") {
        return ReplCommand::Unknown(msg_type);
    }
    if tokens.len() < 2 {
        return ReplCommand::Usage(msg_type);
    }
    match parse_args(tokens) {
        Some((t, g, d)) => ReplCommand::Send(t, g, d),
        None => ReplCommand::Empty,
    }
}

} // verus!
