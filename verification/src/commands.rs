//! Parsing of chat commands addressed to the bot: a mention prefix, a
//! keyword, and for a mirror request a URL and an optional explicit page
//! count.

use vstd::prelude::*;

use crate::urls::has_prefix;

verus! {

/// A whitespace character, as used to separate command tokens: the Unicode
/// White_Space set (the control whitespace, the space, the next line, the
/// no-break and ogham spaces, the typographic spaces, the line and
/// paragraph separators, and the narrow, mathematical and ideographic
/// spaces).
pub open spec fn is_space(c: char) -> bool {
    let u = c as u32;
    ||| 0x9 <= u <= 0xd
    ||| u == 0x20
    ||| u == 0x85
    ||| u == 0xa0
    ||| u == 0x1680
    ||| 0x2000 <= u <= 0x200a
    ||| u == 0x2028
    ||| u == 0x2029
    ||| u == 0x202f
    ||| u == 0x205f
    ||| u == 0x3000
}

/// Whether the character separates command tokens.
fn is_space_char(c: char) -> (r: bool)
    ensures
        r == is_space(c),
{
    let u = c as u32;
    (0x9 <= u && u <= 0xd) || u == 0x20 || u == 0x85 || u == 0xa0 || u == 0x1680 || (0x2000 <= u
        && u <= 0x200a) || u == 0x2028 || u == 0x2029 || u == 0x202f || u == 0x205f || u == 0x3000
}

/// The first index at or after `from` holding a non-space character, or the
/// length of `s` when only spaces remain.
pub open spec fn skip_spaces(s: Seq<char>, from: int) -> int
    decreases s.len() - from,
{
    if from < 0 || from >= s.len() {
        s.len() as int
    } else if is_space(s[from]) {
        skip_spaces(s, from + 1)
    } else {
        from
    }
}

/// The first index at or after `from` holding a space, or the length of `s`
/// when the token runs to its end.
pub open spec fn token_end(s: Seq<char>, from: int) -> int
    decreases s.len() - from,
{
    if from < 0 || from >= s.len() {
        s.len() as int
    } else if is_space(s[from]) {
        from
    } else {
        token_end(s, from + 1)
    }
}

/// The character is a decimal digit.
pub open spec fn is_digit(c: char) -> bool {
    48 <= c as u32 <= 57
}

/// Every character of the sequence is a decimal digit.
pub open spec fn all_digits(s: Seq<char>) -> bool {
    forall|i: int| 0 <= i < s.len() ==> is_digit(#[trigger] s[i])
}

/// The numeric value of a digit sequence, most significant digit first.
pub open spec fn dec_val(s: Seq<char>) -> int
    decreases s.len(),
{
    if s.len() == 0 {
        0
    } else {
        dec_val(s.drop_last()) * 10 + (s.last() as u32 - 48)
    }
}

proof fn lemma_dec_val_nonneg(s: Seq<char>)
    requires
        all_digits(s),
    ensures
        dec_val(s) >= 0,
    decreases s.len(),
{
    if s.len() > 0 {
        assert(all_digits(s.drop_last()));
        lemma_dec_val_nonneg(s.drop_last());
        assert(dec_val(s.drop_last()) * 10 >= 0) by (nonlinear_arith)
            requires
                dec_val(s.drop_last()) >= 0;
    }
}

/// A digit sequence is worth at least any of its prefixes.
proof fn lemma_dec_val_prefix(s: Seq<char>, j: int)
    requires
        all_digits(s),
        0 <= j <= s.len(),
    ensures
        dec_val(s.take(j)) <= dec_val(s),
    decreases s.len() - j,
{
    if j == s.len() {
        assert(s.take(j) =~= s);
    } else {
        lemma_dec_val_prefix(s, j + 1);
        assert(s.take(j + 1).drop_last() =~= s.take(j));
        assert(all_digits(s.take(j)));
        lemma_dec_val_nonneg(s.take(j));
        assert(dec_val(s.take(j)) * 10 >= dec_val(s.take(j))) by (nonlinear_arith)
            requires
                dec_val(s.take(j)) >= 0;
        assert(dec_val(s.take(j + 1)) >= dec_val(s.take(j)));
    }
}

/// The digit part of a number token: one leading plus sign, if present, is
/// accepted and skipped.
pub open spec fn digits_part(s: Seq<char>) -> Seq<char> {
    if s.len() > 0 && s[0] == '+' {
        s.skip(1)
    } else {
        s
    }
}

/// Parse a decimal number token: its value when, after an optional leading
/// plus sign, the token is non-empty, all digits, and the value fits;
/// `None` otherwise.
pub fn parse_usize_decimal(s: &str) -> (r: Option<usize>)
    ensures
        match r {
            Some(v) => digits_part(s@).len() > 0 && all_digits(digits_part(s@)) && v == dec_val(
                digits_part(s@),
            ),
            None => digits_part(s@).len() == 0 || !all_digits(digits_part(s@)) || dec_val(
                digits_part(s@),
            ) > usize::MAX,
        },
{
    let n = s.unicode_len();
    let start: usize = if n > 0 && s.get_char(0) == '+' {
        1
    } else {
        0
    };
    let ghost dp = digits_part(s@);
    proof {
        assert(dp =~= s@.skip(start as int));
    }
    if n == start {
        return None;
    }
    let mut v: usize = 0;
    let mut i: usize = start;
    while i < n
        invariant
            start <= i <= n == s@.len(),
            dp == digits_part(s@),
            dp =~= s@.skip(start as int),
            all_digits(dp.take(i - start)),
            v == dec_val(dp.take(i - start)),
        decreases n - i,
    {
        let c = s.get_char(i);
        let cv = c as u32;
        proof {
            assert(dp[i - start] == s@[i as int]);
            assert(dp.take(i + 1 - start).drop_last() =~= dp.take(i - start));
            assert(dp.take(i + 1 - start).last() == dp[i - start]);
        }
        if cv < 48 || cv > 57 {
            assert(!is_digit(dp[i - start]));
            return None;
        }
        let d: usize = (cv - 48) as usize;
        if v > (usize::MAX - d) / 10 {
            proof {
                assert(all_digits(dp.take(i + 1 - start)));
                assert(dec_val(dp.take(i + 1 - start)) == v * 10 + d);
                assert(v * 10 + d > usize::MAX) by (nonlinear_arith)
                    requires
                        v > (usize::MAX - d) / 10,
                        0 <= d <= 9,
                        usize::MAX == (usize::MAX - d) / 10 * 10 + ((usize::MAX - d) % 10) + d,
                        0 <= (usize::MAX - d) % 10 < 10;
                if all_digits(dp) {
                    lemma_dec_val_prefix(dp, i + 1 - start);
                }
            }
            return None;
        }
        proof {
            assert(v * 10 + d <= usize::MAX) by (nonlinear_arith)
                requires
                    v <= (usize::MAX - d) / 10,
                    0 <= d <= 9,
                    usize::MAX - d >= (usize::MAX - d) / 10 * 10,
                    0 <= v;
        }
        v = v * 10 + d;
        i = i + 1;
    }
    proof {
        assert(dp.take(n - start) =~= dp);
    }
    Some(v)
}

/// A decoded chat command.
pub enum Command {
    /// Not addressed to the bot, no keyword, or an unknown keyword.
    Ignore,
    /// Reply with the invite link.
    Invite,
    /// Create a mirror group over the file at `url`, optionally with an
    /// explicitly requested page count.
    Mirror { url: String, explicit_pages: Option<usize> },
    /// A malformed mirror command, answered with a usage message.
    Usage,
}

/// The spec-level shape of a decoded command.
pub enum CommandSpec {
    Ignore,
    Invite,
    Mirror(Seq<char>, Option<int>),
    Usage,
}

/// The spec-level shape of an executable command value.
pub open spec fn command_view(c: Command) -> CommandSpec {
    match c {
        Command::Ignore => CommandSpec::Ignore,
        Command::Invite => CommandSpec::Invite,
        Command::Mirror { url, explicit_pages } => CommandSpec::Mirror(
            url@,
            match explicit_pages {
                Some(p) => Some(p as int),
                None => None,
            },
        ),
        Command::Usage => CommandSpec::Usage,
    }
}

/// What a message addressed to the bot decodes to, given the text after the
/// mention prefix: the first token selects the command; `mirror` takes a
/// URL token and an optional page count of digits after an optional plus
/// sign.
pub open spec fn parse_after_prefix_spec(rest: Seq<char>) -> CommandSpec {
    let s1 = skip_spaces(rest, 0);
    let e1 = token_end(rest, s1);
    let kw = rest.subrange(s1, e1);
    if s1 == rest.len() {
        CommandSpec::Ignore
    } else if kw == "invite"@ {
        CommandSpec::Invite
    } else if kw == "mirror"@ {
        let s2 = skip_spaces(rest, e1);
        let e2 = token_end(rest, s2);
        if s2 == rest.len() {
            CommandSpec::Usage
        } else {
            let url = rest.subrange(s2, e2);
            let s3 = skip_spaces(rest, e2);
            let e3 = token_end(rest, s3);
            if s3 == rest.len() {
                CommandSpec::Mirror(url, None)
            } else {
                let pages = digits_part(rest.subrange(s3, e3));
                if pages.len() > 0 && all_digits(pages) && dec_val(pages) <= usize::MAX {
                    CommandSpec::Mirror(url, Some(dec_val(pages)))
                } else {
                    CommandSpec::Usage
                }
            }
        }
    } else {
        CommandSpec::Ignore
    }
}

/// What a message decodes to: nothing unless it starts with one of the two
/// mention prefixes; otherwise the command after the prefix.
pub open spec fn parse_command_spec(content: Seq<char>, p1: Seq<char>, p2: Seq<char>) -> CommandSpec {
    if p1.is_prefix_of(content) {
        parse_after_prefix_spec(content.skip(p1.len() as int))
    } else if p2.is_prefix_of(content) {
        parse_after_prefix_spec(content.skip(p2.len() as int))
    } else {
        CommandSpec::Ignore
    }
}

/// Whether two strings hold the same characters.
pub fn str_eq(a: &str, b: &str) -> (r: bool)
    ensures
        r == (a@ == b@),
{
    let n = a.unicode_len();
    let m = b.unicode_len();
    if n != m {
        return false;
    }
    let mut i: usize = 0;
    while i < n
        invariant
            0 <= i <= n == a@.len(),
            n == m == b@.len(),
            forall|j: int| 0 <= j < i ==> a@[j] == b@[j],
        decreases n - i,
    {
        if a.get_char(i) != b.get_char(i) {
            return false;
        }
        i = i + 1;
    }
    proof {
        assert(a@ =~= b@);
    }
    true
}

/// The first index at or after `from` holding a non-space character.
fn skip_spaces_from(s: &str, from: usize) -> (r: usize)
    requires
        from <= s@.len(),
    ensures
        r == skip_spaces(s@, from as int),
        from <= r <= s@.len(),
{
    let n = s.unicode_len();
    let mut i: usize = from;
    while i < n
        invariant
            from <= i <= n == s@.len(),
            skip_spaces(s@, from as int) == skip_spaces(s@, i as int),
        decreases n - i,
    {
        if !is_space_char(s.get_char(i)) {
            return i;
        }
        i = i + 1;
    }
    n
}

/// The first index at or after `from` holding a space.
fn token_end_from(s: &str, from: usize) -> (r: usize)
    requires
        from <= s@.len(),
    ensures
        r == token_end(s@, from as int),
        from <= r <= s@.len(),
{
    let n = s.unicode_len();
    let mut i: usize = from;
    while i < n
        invariant
            from <= i <= n == s@.len(),
            token_end(s@, from as int) == token_end(s@, i as int),
        decreases n - i,
    {
        if is_space_char(s.get_char(i)) {
            return i;
        }
        i = i + 1;
    }
    n
}

/// Decode one chat message against the bot's two mention prefixes.
pub fn parse_command(content: &str, p1: &str, p2: &str) -> (r: Command)
    ensures
        command_view(r) == parse_command_spec(content@, p1@, p2@),
{
    let n = content.unicode_len();
    let rest: &str = if has_prefix(content, p1) {
        let plen = p1.unicode_len();
        content.substring_char(plen, n)
    } else if has_prefix(content, p2) {
        let plen = p2.unicode_len();
        content.substring_char(plen, n)
    } else {
        return Command::Ignore;
    };
    proof {
        if p1@.is_prefix_of(content@) {
            assert(rest@ =~= content@.skip(p1@.len() as int));
        } else {
            assert(rest@ =~= content@.skip(p2@.len() as int));
        }
    }
    let m = rest.unicode_len();
    let s1 = skip_spaces_from(rest, 0);
    if s1 == m {
        return Command::Ignore;
    }
    let e1 = token_end_from(rest, s1);
    let kw = rest.substring_char(s1, e1);
    if str_eq(kw, "invite") {
        Command::Invite
    } else if str_eq(kw, "mirror") {
        let s2 = skip_spaces_from(rest, e1);
        if s2 == m {
            return Command::Usage;
        }
        let e2 = token_end_from(rest, s2);
        let url = rest.substring_char(s2, e2).to_owned();
        let s3 = skip_spaces_from(rest, e2);
        if s3 == m {
            return Command::Mirror { url, explicit_pages: None };
        }
        let e3 = token_end_from(rest, s3);
        let pages = rest.substring_char(s3, e3);
        match parse_usize_decimal(pages) {
            Some(p) => Command::Mirror { url, explicit_pages: Some(p) },
            None => Command::Usage,
        }
    } else {
        Command::Ignore
    }
}

} // verus!
