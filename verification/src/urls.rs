//! URL handling: recognising the two accepted file-URL shapes of a mirror
//! request, deriving the authoritative raw-content URL, and splitting a
//! repository's `owner/name` pair.

use vstd::prelude::*;

verus! {

/// The index of the first occurrence of `c` in `s` at or after `from`, or
/// `s.len()` when there is none.
pub open spec fn find_char(s: Seq<char>, c: char, from: int) -> int
    decreases s.len() - from,
{
    if from < 0 || from >= s.len() {
        s.len() as int
    } else if s[from] == c {
        from
    } else {
        find_char(s, c, from + 1)
    }
}

/// A file URL as shown by the repository browser.
pub open spec fn browser_prefix() -> Seq<char> {
    "https://github.com/"@
}

/// A raw-content file URL.
pub open spec fn raw_prefix() -> Seq<char> {
    "https://raw.githubusercontent.com/"@
}

/// The authoritative raw-content URL for a file: the raw prefix followed by
/// `user/repo/path`.
pub open spec fn raw_url_spec(user: Seq<char>, repo: Seq<char>, path: Seq<char>) -> Seq<char> {
    raw_prefix() + user + seq!['/'] + repo + seq!['/'] + path
}

/// The `(user, repo, path)` named by an accepted mirror URL, or `None` when
/// the URL matches neither accepted shape. A browser URL carries
/// `user/repo/<kind>/path` after its prefix (the third segment, such as the
/// branch marker, is skipped); a raw URL carries `user/repo/path`.
pub open spec fn parse_mirror_url_spec(s: Seq<char>) -> Option<(Seq<char>, Seq<char>, Seq<char>)> {
    if browser_prefix().is_prefix_of(s) {
        let rest = s.skip(browser_prefix().len() as int);
        let i1 = find_char(rest, '/', 0);
        let i2 = find_char(rest, '/', i1 + 1);
        let i3 = find_char(rest, '/', i2 + 1);
        if i1 == rest.len() || i2 == rest.len() || i3 == rest.len() {
            None
        } else {
            Some((rest.take(i1), rest.subrange(i1 + 1, i2), rest.skip(i3 + 1)))
        }
    } else if raw_prefix().is_prefix_of(s) {
        let rest = s.skip(raw_prefix().len() as int);
        let i1 = find_char(rest, '/', 0);
        let i2 = find_char(rest, '/', i1 + 1);
        if i1 == rest.len() || i2 == rest.len() {
            None
        } else {
            Some((rest.take(i1), rest.subrange(i1 + 1, i2), rest.skip(i2 + 1)))
        }
    } else {
        None
    }
}

/// The parts of an accepted mirror URL.
pub struct UrlInfo {
    pub user: String,
    pub repo: String,
    pub path: String,
}

/// Whether `p` is a prefix of `s`, compared character by character.
pub fn has_prefix(s: &str, p: &str) -> (r: bool)
    ensures
        r == p@.is_prefix_of(s@),
{
    let n = p.unicode_len();
    let m = s.unicode_len();
    if n > m {
        return false;
    }
    let mut i: usize = 0;
    while i < n
        invariant
            0 <= i <= n == p@.len(),
            n <= m == s@.len(),
            forall|j: int| 0 <= j < i ==> s@[j] == p@[j],
        decreases n - i,
    {
        if s.get_char(i) != p.get_char(i) {
            return false;
        }
        i = i + 1;
    }
    proof {
        assert(p@ =~= s@.take(n as int));
    }
    true
}

/// The index of the first occurrence of `c` in `s` at or after `from`, or
/// the length of `s` when there is none.
pub fn find_char_from(s: &str, c: char, from: usize) -> (r: usize)
    requires
        from <= s@.len(),
    ensures
        r == find_char(s@, c, from as int),
        from <= r <= s@.len(),
        r < s@.len() ==> s@[r as int] == c,
{
    let n = s.unicode_len();
    let mut i: usize = from;
    while i < n
        invariant
            from <= i <= n == s@.len(),
            find_char(s@, c, from as int) == find_char(s@, c, i as int),
        decreases n - i,
    {
        if s.get_char(i) == c {
            return i;
        }
        i = i + 1;
    }
    n
}

/// Parse a mirror request URL into its `(user, repo, path)` parts,
/// accepting exactly the two URL shapes; `None` is a usage error.
pub fn parse_mirror_url(url: &str) -> (r: Option<UrlInfo>)
    ensures
        match r {
            Some(info) => parse_mirror_url_spec(url@) == Some(
                (info.user@, info.repo@, info.path@),
            ),
            None => parse_mirror_url_spec(url@) is None,
        },
{
    if has_prefix(url, "https://github.com/") {
        let plen = "https://github.com/".unicode_len();
        let n = url.unicode_len();
        let rest = url.substring_char(plen, n);
        proof {
            assert(rest@ =~= url@.skip(browser_prefix().len() as int));
        }
        let i1 = find_char_from(rest, '/', 0);
        let m = rest.unicode_len();
        if i1 == m {
            return None;
        }
        let i2 = find_char_from(rest, '/', i1 + 1);
        if i2 == m {
            return None;
        }
        let i3 = find_char_from(rest, '/', i2 + 1);
        if i3 == m {
            return None;
        }
        let user = rest.substring_char(0, i1).to_owned();
        let repo = rest.substring_char(i1 + 1, i2).to_owned();
        let path = rest.substring_char(i3 + 1, m).to_owned();
        proof {
            assert(user@ =~= rest@.take(i1 as int));
            assert(path@ =~= rest@.skip(i3 + 1));
        }
        Some(UrlInfo { user, repo, path })
    } else if has_prefix(url, "https://raw.githubusercontent.com/") {
        let plen = "https://raw.githubusercontent.com/".unicode_len();
        let n = url.unicode_len();
        let rest = url.substring_char(plen, n);
        proof {
            assert(rest@ =~= url@.skip(raw_prefix().len() as int));
        }
        let i1 = find_char_from(rest, '/', 0);
        let m = rest.unicode_len();
        if i1 == m {
            return None;
        }
        let i2 = find_char_from(rest, '/', i1 + 1);
        if i2 == m {
            return None;
        }
        let user = rest.substring_char(0, i1).to_owned();
        let repo = rest.substring_char(i1 + 1, i2).to_owned();
        let path = rest.substring_char(i2 + 1, m).to_owned();
        proof {
            assert(user@ =~= rest@.take(i1 as int));
            assert(path@ =~= rest@.skip(i2 + 1));
        }
        Some(UrlInfo { user, repo, path })
    } else {
        None
    }
}

/// Build the authoritative raw-content URL for a file.
pub fn raw_content_url(user: &str, repo: &str, path: &str) -> (r: String)
    ensures
        r@ == raw_url_spec(user@, repo@, path@),
{
    let mut s = String::new();
    s.append("https://raw.githubusercontent.com/");
    s.append(user);
    s.append("/");
    s.append(repo);
    s.append("/");
    s.append(path);
    proof {
        reveal_strlit("/");
        assert("/"@ =~= seq!['/']);
        assert(s@ =~= raw_url_spec(user@, repo@, path@));
    }
    s
}

/// Split a repository's `owner/name` pair at its slashes: the owner is the
/// text before the first slash, the name the segment after it (up to the
/// next slash, if any). `None` when no slash occurs; that is a malformed
/// pair.
pub fn split_full_name(full: &str) -> (r: Option<(String, String)>)
    ensures
        match r {
            Some(parts) => {
                &&& find_char(full@, '/', 0) < full@.len()
                &&& parts.0@ == full@.take(find_char(full@, '/', 0))
                &&& parts.1@ == full@.subrange(
                    find_char(full@, '/', 0) + 1,
                    find_char(full@, '/', find_char(full@, '/', 0) + 1),
                )
            },
            None => find_char(full@, '/', 0) == full@.len(),
        },
{
    let n = full.unicode_len();
    let i = find_char_from(full, '/', 0);
    if i == n {
        return None;
    }
    let j = find_char_from(full, '/', i + 1);
    let user = full.substring_char(0, i).to_owned();
    let name = full.substring_char(i + 1, j).to_owned();
    proof {
        assert(user@ =~= full@.take(i as int));
    }
    Some((user, name))
}

} // verus!
