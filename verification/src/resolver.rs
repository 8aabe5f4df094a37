use vstd::prelude::*;

use vstd::string::StrSliceExecFns;
use vstd::string::StringSliceAdditionalSpecFns;

use crate::model::ResolutionError;

verus! {

/// The marker a trace line starts with when the pull-history page was loaded.
pub open spec fn marker_prefix() -> Seq<u8> {
    "OnGetWebViewPageFinish".spec_bytes()
}

/// The anchor a usable trace line ends with.
pub open spec fn marker_suffix() -> Seq<u8> {
    "#/log".spec_bytes()
}

/// The endpoint the embedded URL's path is rewritten to.
pub open spec fn history_endpoint() -> Seq<u8> {
    "https://hk4e-api.mihoyo.com/event/gacha_info/api/getGachaLog".spec_bytes()
}

/// The path segment of the history-query endpoint.
pub open spec fn history_path() -> Seq<u8> {
    "getGachaLog".spec_bytes()
}

/// The path segment of the sibling category-catalog endpoint.
pub open spec fn catalog_path() -> Seq<u8> {
    "getConfigList".spec_bytes()
}

/// A line marking a loaded pull-history page: it starts with the marker and
/// ends with the page anchor.
pub open spec fn is_marker_line(l: Seq<u8>) -> bool {
    &&& l.len() >= marker_prefix().len()
    &&& l.take(marker_prefix().len() as int) == marker_prefix()
    &&& l.len() >= marker_suffix().len()
    &&& l.skip(l.len() - marker_suffix().len()) == marker_suffix()
}

/// The index of the last marker line, or nothing when no line matches.
pub open spec fn last_marker(lines: Seq<Seq<u8>>) -> Option<int>
    decreases lines.len(),
{
    if lines.len() == 0 {
        None
    } else if is_marker_line(lines.last()) {
        Some(lines.len() - 1)
    } else {
        last_marker(lines.drop_last())
    }
}

/// The query URL a marker line embeds: everything after the first ':', with
/// everything before the first '?' of that remainder replaced by the history
/// endpoint — or nothing when either character is missing. 58 and 63 are the
/// byte values of ':' and '?'.
pub open spec fn extract_url(l: Seq<u8>) -> Option<Seq<u8>> {
    match l.index_of_first(58u8) {
        None => None,
        Some(c) => {
            let rest = l.skip(c + 1);
            match rest.index_of_first(63u8) {
                None => None,
                Some(q) => Some(history_endpoint() + rest.skip(q)),
            }
        },
    }
}

/// The first index at or past `from` where `pat` occurs in `s`.
pub open spec fn find_sub(s: Seq<u8>, pat: Seq<u8>, from: int) -> Option<int>
    decreases s.len() + 1 - from,
{
    if from < 0 || from + pat.len() > s.len() {
        None
    } else if s.subrange(from, from + pat.len()) == pat {
        Some(from)
    } else {
        find_sub(s, pat, from + 1)
    }
}

/// The sibling category-catalog URL: the first occurrence of the history
/// path segment replaced by the catalog path segment, the URL otherwise
/// unchanged.
pub open spec fn catalog_url_of(url: Seq<u8>) -> Seq<u8> {
    match find_sub(url, history_path(), 0) {
        None => url,
        Some(i) => url.take(i) + catalog_path() + url.skip(i + history_path().len()),
    }
}

/// The bytes of a string slice, as an owned vector.
fn bytes_of(s: &str) -> (v: Vec<u8>)
    ensures
        v@ == s.spec_bytes(),
{
    s.as_bytes_vec()
}

/// Whether `l` starts with `p`.
fn starts_with(l: &Vec<u8>, p: &Vec<u8>) -> (r: bool)
    ensures
        r == (l@.len() >= p@.len() && l@.take(p@.len() as int) == p@),
{
    if l.len() < p.len() {
        return false;
    }
    let mut i: usize = 0;
    while i < p.len()
        invariant
            p@.len() <= l@.len(),
            0 <= i <= p@.len(),
            forall|j: int| 0 <= j < i ==> l@[j] == p@[j],
        decreases p@.len() - i,
    {
        if l[i] != p[i] {
            assert(l@.take(p@.len() as int)[i as int] != p@[i as int]);
            return false;
        }
        i = i + 1;
    }
    assert(l@.take(p@.len() as int) =~= p@);
    true
}

/// Whether `l` ends with `p`.
fn ends_with(l: &Vec<u8>, p: &Vec<u8>) -> (r: bool)
    ensures
        r == (l@.len() >= p@.len() && l@.skip(l@.len() - p@.len()) == p@),
{
    if l.len() < p.len() {
        return false;
    }
    let base = l.len() - p.len();
    let mut i: usize = 0;
    while i < p.len()
        invariant
            p@.len() <= l@.len(),
            l@.len() <= usize::MAX,
            base == l@.len() - p@.len(),
            0 <= i <= p@.len(),
            forall|j: int| 0 <= j < i ==> l@[base + j] == p@[j],
        decreases p@.len() - i,
    {
        if l[base + i] != p[i] {
            assert(l@.skip(l@.len() - p@.len())[i as int] != p@[i as int]);
            return false;
        }
        i = i + 1;
    }
    assert(l@.skip(l@.len() - p@.len()) =~= p@);
    true
}

/// The first index at or past `from` whose byte is `b`, or nothing when the
/// byte does not occur there. The found index is the first occurrence within
/// the suffix that starts at `from`.
fn find_byte(l: &Vec<u8>, b: u8, from: usize) -> (r: Option<usize>)
    ensures
        match r {
            Some(i) => {
                &&& from <= i < l@.len()
                &&& l@.len() <= usize::MAX
                &&& l@[i as int] == b
                &&& forall|j: int| from <= j < i ==> l@[j] != b
                &&& from <= l@.len() && l@.skip(from as int).index_of_first(b) == Some(
                    i - from as int,
                )
            },
            None => from >= l@.len() || l@.skip(from as int).index_of_first(b) is None,
        },
{
    if from >= l.len() {
        return None;
    }
    let mut i: usize = from;
    while i < l.len()
        invariant
            from <= i <= l@.len(),
            forall|j: int| from <= j < i ==> l@[j] != b,
        decreases l@.len() - i,
    {
        if l[i] == b {
            proof {
                let rest = l@.skip(from as int);
                rest.index_of_first_ensures(b);
                assert(rest[i - from as int] == b);
                assert(forall|j: int| 0 <= j < i - from as int ==> rest[j] != b);
                match rest.index_of_first(b) {
                    Some(k) => {
                        if k < i - from as int {
                            assert(rest[k] == b);
                        }
                        if k > i - from as int {
                            assert(rest[i - from as int] != b);
                        }
                    },
                    None => {
                        assert(!rest.contains(rest[i - from as int]));
                    },
                }
            }
            return Some(i);
        }
        i = i + 1;
    }
    proof {
        let rest = l@.skip(from as int);
        rest.index_of_first_ensures(b);
        match rest.index_of_first(b) {
            Some(k) => {
                assert(rest[k] == b);
                assert(l@[from + k] == b);
            },
            None => {},
        }
    }
    None
}

/// Appends `src@.subrange(from, src@.len())` to `dst`.
fn push_tail(dst: &mut Vec<u8>, src: &Vec<u8>, from: usize)
    requires
        from <= src@.len(),
    ensures
        final(dst)@ == old(dst)@ + src@.skip(from as int),
{
    let mut k: usize = from;
    while k < src.len()
        invariant
            from <= k <= src@.len(),
            dst@ =~= old(dst)@ + src@.subrange(from as int, k as int),
        decreases src@.len() - k,
    {
        dst.push(src[k]);
        k = k + 1;
    }
    proof {
        assert(src@.subrange(from as int, src@.len() as int) =~= src@.skip(from as int));
        assert(dst@ =~= old(dst)@ + src@.skip(from as int));
    }
}

/// Resolves the history-query endpoint from the trace lines: the last line
/// marking a loaded pull-history page has its embedded URL's path rewritten
/// to the history endpoint. Later lines supersede earlier ones. Fails when
/// no line matches — the pull-history panel was never opened, which is what
/// writes such a line — or when the matching line embeds no recognizable
/// URL.
pub fn resolve_endpoint(lines: &Vec<Vec<u8>>) -> (r: Result<Vec<u8>, ResolutionError>)
    ensures
        ({
            let lv = lines@.map_values(|l: Vec<u8>| l@);
            match r {
                Ok(url) => last_marker(lv) matches Some(i) && extract_url(lv[i]) == Some(url@),
                Err(ResolutionError::NoTraceEntry) => last_marker(lv) is None,
                Err(ResolutionError::MalformedTraceEntry) => last_marker(lv) matches Some(i)
                    && extract_url(lv[i]) is None,
            }
        }),
{
    let ghost lv = lines@.map_values(|l: Vec<u8>| l@);
    let prefix = bytes_of("OnGetWebViewPageFinish");
    let suffix = bytes_of("#/log");
    let mut best: Option<usize> = None;
    let mut i: usize = 0;
    while i < lines.len()
        invariant
            lv == lines@.map_values(|l: Vec<u8>| l@),
            prefix@ == marker_prefix(),
            suffix@ == marker_suffix(),
            0 <= i <= lines@.len(),
            match best {
                Some(b) => b < i && last_marker(lv.take(i as int)) == Some(b as int),
                None => last_marker(lv.take(i as int)) is None,
            },
        decreases lines@.len() - i,
    {
        let hit = starts_with(&lines[i], &prefix) && ends_with(&lines[i], &suffix);
        proof {
            assert(lv.take(i + 1).drop_last() =~= lv.take(i as int));
            assert(lv.take(i + 1).last() == lv[i as int]);
            assert(lv[i as int] == lines@[i as int]@);
        }
        if hit {
            best = Some(i);
        }
        i = i + 1;
    }
    proof {
        assert(lv.take(lines@.len() as int) =~= lv);
    }
    let b = match best {
        None => {
            return Err(ResolutionError::NoTraceEntry);
        },
        Some(b) => b,
    };
    let line = &lines[b];
    proof {
        assert(lv[b as int] == line@);
    }
    let colon = match find_byte(line, 58, 0) {
        None => {
            proof {
                assert(line@.skip(0) =~= line@);
                line@.index_of_first_ensures(58u8);
            }
            return Err(ResolutionError::MalformedTraceEntry);
        },
        Some(c) => c,
    };
    proof {
        assert(line@.skip(0) =~= line@);
    }
    let qmark = match find_byte(line, 63, colon + 1) {
        None => {
            proof {
                line@.skip(colon + 1).index_of_first_ensures(63u8);
            }
            return Err(ResolutionError::MalformedTraceEntry);
        },
        Some(q) => q,
    };
    proof {
        let rest = line@.skip(colon + 1);
        assert(rest.index_of_first(63u8) == Some(qmark - (colon + 1)));
        assert(rest.skip(qmark - (colon + 1)) =~= line@.skip(qmark as int));
    }
    let mut url = bytes_of("https://hk4e-api.mihoyo.com/event/gacha_info/api/getGachaLog");
    push_tail(&mut url, line, qmark);
    Ok(url)
}

/// Copies a byte vector.
fn copy_bytes(v: &Vec<u8>) -> (out: Vec<u8>)
    ensures
        out@ == v@,
{
    let mut out: Vec<u8> = Vec::new();
    push_tail(&mut out, v, 0);
    proof {
        assert(v@.skip(0) =~= v@);
        assert(out@ =~= v@);
    }
    out
}

/// Whether `pat` occurs in `l` at position `i`.
fn matches_at(l: &Vec<u8>, i: usize, pat: &Vec<u8>) -> (r: bool)
    requires
        i + pat@.len() <= l@.len(),
        l@.len() <= usize::MAX,
    ensures
        r == (l@.subrange(i as int, i as int + pat@.len() as int) == pat@),
{
    let mut j: usize = 0;
    while j < pat.len()
        invariant
            i + pat@.len() <= l@.len(),
            l@.len() <= usize::MAX,
            0 <= j <= pat@.len(),
            forall|k: int| 0 <= k < j ==> l@[i + k] == pat@[k],
        decreases pat@.len() - j,
    {
        if l[i + j] != pat[j] {
            assert(l@.subrange(i as int, i as int + pat@.len() as int)[j as int] != pat@[j as int]);
            return false;
        }
        j = j + 1;
    }
    assert(l@.subrange(i as int, i as int + pat@.len() as int) =~= pat@);
    true
}

/// Derives the sibling category-catalog URL from a resolved history URL:
/// same host and session parameters, the history path segment replaced (at
/// its first occurrence) by the catalog path segment.
pub fn config_list_url(url: &Vec<u8>) -> (r: Vec<u8>)
    ensures
        r@ == catalog_url_of(url@),
{
    let pat = bytes_of("getGachaLog");
    let repl = bytes_of("getConfigList");
    if url.len() < pat.len() {
        return copy_bytes(url);
    }
    let bound = url.len() - pat.len();
    let mut i: usize = 0;
    while i <= bound
        invariant
            pat@ == history_path(),
            repl@ == catalog_path(),
            bound == url@.len() - pat@.len(),
            url@.len() <= usize::MAX,
            0 <= i <= bound + 1,
            find_sub(url@, pat@, 0) == find_sub(url@, pat@, i as int),
        decreases url@.len() + 1 - i,
    {
        if matches_at(url, i, &pat) {
            let mut out: Vec<u8> = Vec::new();
            let mut k: usize = 0;
            while k < i
                invariant
                    i <= url@.len(),
                    0 <= k <= i,
                    out@ =~= url@.subrange(0, k as int),
                decreases i - k,
            {
                out.push(url[k]);
                k = k + 1;
            }
            proof {
                assert(out@ =~= url@.take(i as int));
            }
            push_tail(&mut out, &repl, 0);
            proof {
                assert(repl@.skip(0) =~= repl@);
            }
            push_tail(&mut out, url, i + pat.len());
            proof {
                assert(out@ =~= url@.take(i as int) + catalog_path() + url@.skip(
                    i + history_path().len(),
                ));
            }
            return out;
        }
        if i == bound {
            proof {
                assert(find_sub(url@, pat@, i as int + 1) is None);
                assert(find_sub(url@, pat@, i as int) is None);
            }
            return copy_bytes(url);
        }
        i = i + 1;
    }
    copy_bytes(url)
}

} // verus!
