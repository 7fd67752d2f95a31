//! The URLs tried for a documentation page: the page itself, then Markdown and `llms.txt`
//! neighbours, with raw-file forms for GitHub repository URLs.
use crate::text::{chars_of, push_char, push_chars, push_str};
use vstd::prelude::*;

verus! {

#[verifier::external_type_specification]
#[verifier::external_body]
pub struct ExUrl(url::Url);

/// What `str::to_lowercase` makes of a text.
pub uninterp spec fn lower_of(s: Seq<char>) -> Seq<char>;

/// Relies on `str::to_lowercase`: the result depends on the characters alone.
#[verifier::external_body]
pub(crate) fn lowercase(s: &str) -> (r: String)
    ensures
        r@ == lower_of(s@),
{
    s.to_lowercase()
}

/// Whether `url::Url::parse` accepts a text.
pub uninterp spec fn url_parses(s: Seq<char>) -> bool;

/// Relies on `url::Url::parse`, keeping the parsed URL when parsing succeeds: success
/// depends on the text alone.
#[verifier::external_body]
fn parse_url(s: &str) -> (r: Option<url::Url>)
    ensures
        r is Some == url_parses(s@),
{
    url::Url::parse(s).ok()
}

pub assume_specification[ url::Url::domain ](u: &url::Url) -> Option<&str>;

pub assume_specification[ url::Url::path ](u: &url::Url) -> &str;

pub open spec fn string_views(v: Seq<String>) -> Seq<Seq<char>> {
    v.map_values(|s: String| s@)
}

/// `s` ends with `suffix`.
pub open spec fn ends_with(s: Seq<char>, suffix: Seq<char>) -> bool {
    suffix.len() <= s.len() && s.subrange(s.len() - suffix.len(), s.len() as int) == suffix
}

/// `s` without its trailing slashes.
pub open spec fn trim_end_slashes(s: Seq<char>) -> Seq<char>
    decreases s.len(),
{
    if s.len() > 0 && s.last() == '/' {
        trim_end_slashes(s.drop_last())
    } else {
        s
    }
}

/// `s` without its leading slashes.
pub open spec fn trim_start_slashes(s: Seq<char>) -> Seq<char>
    decreases s.len(),
{
    if s.len() > 0 && s[0] == '/' {
        trim_start_slashes(s.drop_first())
    } else {
        s
    }
}

/// The pieces of `s` between slashes, empty ones included, as `str::split('/')` yields them.
pub open spec fn segments(s: Seq<char>) -> Seq<Seq<char>>
    decreases s.len(),
{
    if s.len() == 0 {
        seq![Seq::empty()]
    } else if s.last() == '/' {
        segments(s.drop_last()).push(Seq::empty())
    } else {
        let p = segments(s.drop_last());
        p.update(p.len() - 1, p.last().push(s.last()))
    }
}

/// The pieces joined with slashes.
pub open spec fn joined(parts: Seq<Seq<char>>) -> Seq<char>
    decreases parts.len(),
{
    if parts.len() == 0 {
        Seq::empty()
    } else if parts.len() == 1 {
        parts[0]
    } else {
        joined(parts.drop_last()) + seq!['/'] + parts.last()
    }
}

/// The raw-file URLs for the path segments of a GitHub URL: for `owner/repo/blob/...` the
/// file itself, for `owner/repo/tree/branch/...` the `README.md` of that directory.
pub open spec fn github_raw(parts: Seq<Seq<char>>) -> Seq<Seq<char>> {
    let raw = "https://raw.githubusercontent.com/"@;
    let blob = if parts.len() >= 4 && parts[2] == "blob"@ {
        seq![raw + parts[0] + seq!['/'] + parts[1] + seq!['/'] + joined(parts.subrange(3, parts.len() as int))]
    } else {
        Seq::empty()
    };
    let tree = if parts.len() >= 4 && parts[2] == "tree"@ {
        let sub = if parts.len() > 4 {
            joined(parts.subrange(4, parts.len() as int))
        } else {
            Seq::empty()
        };
        let dir = raw + parts[0] + seq!['/'] + parts[1] + seq!['/'] + parts[3] + if sub.len() == 0 {
            Seq::empty()
        } else {
            seq!['/'] + sub
        };
        seq![dir + "/README.md"@]
    } else {
        Seq::empty()
    };
    blob + tree
}

/// The URLs to try for `url`, whose lowercase form is `lower` and which, where it is a
/// github.com URL, has the path `github_path`. A URL naming a `.md` or `.txt` file, or
/// carrying a query, is tried alone.
pub open spec fn variations(url: Seq<char>, lower: Seq<char>, github_path: Option<Seq<char>>) -> Seq<
    Seq<char>,
> {
    if ends_with(lower, ".md"@) || ends_with(lower, ".txt"@) || url.contains('?') {
        seq![url]
    } else {
        let base = trim_end_slashes(url);
        let raw = match github_path {
            Some(p) => github_raw(segments(trim_start_slashes(p))),
            None => Seq::empty(),
        };
        let readme = if github_path is Some {
            seq![base + "/README.md"@]
        } else {
            Seq::empty()
        };
        seq![url] + raw + seq![base + ".md"@] + readme + seq![
            base + "/index.md"@,
            base + "/llms.txt"@,
            base + "/llms-full.txt"@,
        ]
    }
}

pub open spec fn char_seqs(v: Seq<Vec<char>>) -> Seq<Seq<char>> {
    v.map_values(|x: Vec<char>| x@)
}

/// Whether `v` ends with the characters of `suffix`.
fn ends_with_str(v: &Vec<char>, suffix: &str) -> (r: bool)
    ensures
        r == ends_with(v@, suffix@),
{
    let t = chars_of(suffix);
    if t.len() > v.len() {
        return false;
    }
    let offset = v.len() - t.len();
    let mut k: usize = 0;
    while k < t.len()
        invariant
            t@ == suffix@,
            v@.len() == v.len(),
            offset + t@.len() == v@.len(),
            k <= t@.len(),
            forall|j: int| 0 <= j < k ==> v@[offset + j] == t@[j],
        decreases t@.len() - k,
    {
        if v[offset + k] != t[k] {
            proof {
                assert(v@.subrange(offset as int, v@.len() as int)[k as int] != t@[k as int]);
            }
            return false;
        }
        k = k + 1;
    }
    proof {
        assert(v@.subrange(offset as int, v@.len() as int) =~= t@);
    }
    true
}

/// Whether `v` holds `c`.
fn has_char(v: &Vec<char>, c: char) -> (r: bool)
    ensures
        r == v@.contains(c),
{
    let mut k: usize = 0;
    while k < v.len()
        invariant
            k <= v@.len(),
            forall|j: int| 0 <= j < k ==> v@[j] != c,
        decreases v@.len() - k,
    {
        if v[k] == c {
            return true;
        }
        k = k + 1;
    }
    false
}

/// Whether `v` holds exactly the characters of `t`.
fn same_as(v: &Vec<char>, t: &str) -> (r: bool)
    ensures
        r == (v@ == t@),
{
    let w = chars_of(t);
    if v.len() != w.len() {
        return false;
    }
    let mut k: usize = 0;
    while k < w.len()
        invariant
            v@.len() == w@.len(),
            w@ == t@,
            k <= w@.len(),
            forall|j: int| 0 <= j < k ==> v@[j] == w@[j],
        decreases w@.len() - k,
    {
        if v[k] != w[k] {
            return false;
        }
        k = k + 1;
    }
    proof {
        assert(v@ =~= w@);
    }
    true
}

/// Length of `v` once its trailing slashes are removed.
fn trimmed_end(v: &Vec<char>) -> (r: usize)
    ensures
        r <= v@.len(),
        v@.take(r as int) == trim_end_slashes(v@),
{
    let mut k: usize = v.len();
    proof {
        assert(v@.take(k as int) =~= v@);
    }
    while k > 0 && v[k - 1] == '/'
        invariant
            k <= v@.len(),
            trim_end_slashes(v@.take(k as int)) == trim_end_slashes(v@),
        decreases k,
    {
        proof {
            assert(v@.take(k as int).drop_last() =~= v@.take(k - 1));
        }
        k = k - 1;
    }
    k
}

/// Index of the first character of `v` that is not a leading slash.
fn trimmed_start(v: &Vec<char>) -> (r: usize)
    ensures
        r <= v@.len(),
        v@.subrange(r as int, v@.len() as int) == trim_start_slashes(v@),
{
    let mut k: usize = 0;
    proof {
        assert(v@.subrange(0, v@.len() as int) =~= v@);
    }
    while k < v.len() && v[k] == '/'
        invariant
            k <= v@.len(),
            trim_start_slashes(v@.subrange(k as int, v@.len() as int)) == trim_start_slashes(v@),
        decreases v@.len() - k,
    {
        proof {
            assert(v@.subrange(k as int, v@.len() as int).drop_first() =~= v@.subrange(
                k + 1,
                v@.len() as int,
            ));
        }
        k = k + 1;
    }
    k
}

/// The pieces of the characters of `v` from `from` on between slashes.
fn split_slashes(v: &Vec<char>, from: usize) -> (r: Vec<Vec<char>>)
    requires
        from <= v@.len(),
    ensures
        char_seqs(r@) == segments(v@.subrange(from as int, v@.len() as int)),
{
    let mut parts: Vec<Vec<char>> = Vec::new();
    let mut cur: Vec<char> = Vec::new();
    let mut k: usize = from;
    proof {
        assert(char_seqs(parts@).push(cur@) =~= segments(v@.subrange(from as int, from as int)));
    }
    while k < v.len()
        invariant
            from <= k <= v@.len(),
            char_seqs(parts@).push(cur@) == segments(v@.subrange(from as int, k as int)),
        decreases v@.len() - k,
    {
        let ghost prev = v@.subrange(from as int, k as int);
        proof {
            assert(v@.subrange(from as int, k + 1).drop_last() =~= prev);
        }
        let c = v[k];
        if c == '/' {
            let done = cur;
            parts.push(done);
            cur = Vec::new();
            proof {
                assert(char_seqs(parts@).push(cur@) =~= segments(prev).push(Seq::empty()));
            }
        } else {
            cur.push(c);
            proof {
                let p = segments(prev);
                assert(char_seqs(parts@).push(cur@) =~= p.update(p.len() - 1, p.last().push(c)));
            }
        }
        k = k + 1;
    }
    let ghost before = char_seqs(parts@).push(cur@);
    parts.push(cur);
    proof {
        assert(char_seqs(parts@) =~= before);
    }
    parts
}

/// Appends the pieces `from..` of `parts` joined with slashes.
fn push_joined(s: &mut String, parts: &Vec<Vec<char>>, from: usize)
    requires
        from <= parts@.len(),
    ensures
        final(s)@ == old(s)@ + joined(char_seqs(parts@).subrange(from as int, parts@.len() as int)),
{
    let ghost ps = char_seqs(parts@);
    let mut k: usize = from;
    proof {
        assert(ps.subrange(from as int, from as int) =~= Seq::empty());
        assert(s@ =~= old(s)@ + Seq::empty());
    }
    while k < parts.len()
        invariant
            from <= k <= parts@.len(),
            ps == char_seqs(parts@),
            s@ == old(s)@ + joined(ps.subrange(from as int, k as int)),
        decreases parts@.len() - k,
    {
        let ghost sub = ps.subrange(from as int, k + 1);
        proof {
            assert(sub.drop_last() =~= ps.subrange(from as int, k as int));
            assert(sub.last() == parts@[k as int]@);
        }
        if k > from {
            push_char(s, '/');
        }
        let part = &parts[k];
        push_chars(s, part, 0, part.len());
        proof {
            assert(part@.subrange(0, part@.len() as int) =~= part@);
            if k == from {
                assert(sub.len() == 1);
                assert(s@ =~= old(s)@ + joined(sub));
            } else {
                assert(s@ =~= old(s)@ + joined(sub));
            }
        }
        k = k + 1;
    }
}

/// `base` followed by the characters of `tail`.
fn with_suffix(base: &String, tail: &str) -> (r: String)
    ensures
        r@ == base@ + tail@,
{
    let mut s = base.clone();
    push_str(&mut s, tail);
    s
}

pub open spec fn opt_view(o: Option<&str>) -> Option<Seq<char>> {
    match o {
        Some(t) => Some(t@),
        None => None,
    }
}

/// Appends to `out` the raw-file URLs for the path segments `parts` of a GitHub URL.
fn push_github_raw(out: &mut Vec<String>, parts: &Vec<Vec<char>>)
    ensures
        string_views(final(out)@) == string_views(old(out)@) + github_raw(char_seqs(parts@)),
{
    let ghost ps = char_seqs(parts@);
    let ghost start = string_views(out@);
    let raw = "https://raw.githubusercontent.com/";
    let n = parts.len();
    if n >= 4 && same_as(&parts[2], "blob") {
        let mut s = String::new();
        push_str(&mut s, raw);
        push_chars(&mut s, &parts[0], 0, parts[0].len());
        push_char(&mut s, '/');
        push_chars(&mut s, &parts[1], 0, parts[1].len());
        push_char(&mut s, '/');
        push_joined(&mut s, parts, 3);
        proof {
            assert(parts[0]@.subrange(0, parts[0]@.len() as int) =~= ps[0]);
            assert(parts[1]@.subrange(0, parts[1]@.len() as int) =~= ps[1]);
            assert(s@ =~= raw@ + ps[0] + seq!['/'] + ps[1] + seq!['/'] + joined(
                ps.subrange(3, ps.len() as int),
            ));
        }
        out.push(s);
    }
    let ghost mid = string_views(out@);
    proof {
        assert(ps.len() >= 4 ==> ps[2] == parts@[2]@);
        if n >= 4 && parts@[2]@ == "blob"@ {
            assert(string_views(out@) =~= start + seq![string_views(out@).last()]);
        } else {
            assert(string_views(out@) =~= start);
        }
    }
    if n >= 4 && same_as(&parts[2], "tree") {
        let mut sub = String::new();
        if n > 4 {
            push_joined(&mut sub, parts, 4);
        }
        let mut s = String::new();
        push_str(&mut s, raw);
        push_chars(&mut s, &parts[0], 0, parts[0].len());
        push_char(&mut s, '/');
        push_chars(&mut s, &parts[1], 0, parts[1].len());
        push_char(&mut s, '/');
        push_chars(&mut s, &parts[3], 0, parts[3].len());
        if !sub.as_str().is_empty() {
            push_char(&mut s, '/');
            push_str(&mut s, sub.as_str());
        }
        push_str(&mut s, "/README.md");
        proof {
            assert(parts[0]@.subrange(0, parts[0]@.len() as int) =~= ps[0]);
            assert(parts[1]@.subrange(0, parts[1]@.len() as int) =~= ps[1]);
            assert(parts[3]@.subrange(0, parts[3]@.len() as int) =~= ps[3]);
            let want_sub = if n > 4 {
                joined(ps.subrange(4, ps.len() as int))
            } else {
                Seq::<char>::empty()
            };
            assert(sub@ =~= want_sub);
            let tail = if want_sub.len() == 0 {
                Seq::<char>::empty()
            } else {
                seq!['/'] + want_sub
            };
            assert(s@ =~= raw@ + ps[0] + seq!['/'] + ps[1] + seq!['/'] + ps[3] + tail
                + "/README.md"@);
        }
        out.push(s);
        proof {
            assert(string_views(out@) =~= mid + seq![string_views(out@).last()]);
        }
    }
    proof {
        assert(string_views(out@) =~= string_views(old(out)@) + github_raw(ps));
    }
}

/// The URLs to try for `url`, given its lowercase form `lower` and, for a github.com URL,
/// its path: `url` itself, raw-file forms for GitHub, then `<base>.md`, `<base>/README.md` for
/// GitHub, `<base>/index.md`, `<base>/llms.txt` and `<base>/llms-full.txt`, where `<base>` is
/// `url` without trailing slashes. A `.md` or `.txt` URL, or one with a query, is tried alone.
pub fn url_variations_from(url: &str, lower: &str, github_path: Option<&str>) -> (r: Vec<String>)
    ensures
        string_views(r@) == variations(url@, lower@, opt_view(github_path)),
{
    let u = chars_of(url);
    let lw = chars_of(lower);
    let mut out: Vec<String> = Vec::new();
    out.push(url.to_owned());
    proof {
        assert(string_views(out@) =~= seq![url@]);
    }
    if ends_with_str(&lw, ".md") || ends_with_str(&lw, ".txt") || has_char(&u, '?') {
        return out;
    }
    let end = trimmed_end(&u);
    let mut base = String::new();
    push_chars(&mut base, &u, 0, end);
    proof {
        assert(base@ =~= trim_end_slashes(url@));
    }
    let ghost before_raw = string_views(out@);
    match github_path {
        Some(p) => {
            let pc = chars_of(p);
            let start = trimmed_start(&pc);
            let parts = split_slashes(&pc, start);
            push_github_raw(&mut out, &parts);
        },
        None => {},
    }
    out.push(with_suffix(&base, ".md"));
    if github_path.is_some() {
        out.push(with_suffix(&base, "/README.md"));
    }
    out.push(with_suffix(&base, "/index.md"));
    out.push(with_suffix(&base, "/llms.txt"));
    out.push(with_suffix(&base, "/llms-full.txt"));
    proof {
        assert(string_views(out@) =~= variations(url@, lower@, opt_view(github_path)));
    }
    out
}

/// The URLs to try when fetching `url`; see `url_variations_from`. Whether `url` is a
/// github.com URL, and its path, come from the URL parser; a URL that does not parse is not
/// one.
pub fn get_url_variations(url: &str) -> (r: Vec<String>)
    ensures
        exists|github_path: Option<Seq<char>>|
            string_views(r@) == #[trigger] variations(url@, lower_of(url@), github_path),
        !url_parses(url@) ==> string_views(r@) == variations(url@, lower_of(url@), None),
{
    let lower = lowercase(url);
    let mut github: Option<&str> = None;
    let parsed = parse_url(url);
    match &parsed {
        Some(p) => match p.domain() {
            Some(d) => {
                if d.to_owned() == "github.com".to_owned() {
                    github = Some(p.path());
                }
            },
            None => {},
        },
        None => {},
    }
    url_variations_from(url, lower.as_str(), github)
}

} // verus!
