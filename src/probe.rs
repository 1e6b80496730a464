//! What the probe response must show before any segment is planned: a
//! positive content length, support for byte ranges, and a file name in the
//! path of the final URL.
use vstd::prelude::*;

verus! {

/// Why the probe response cannot start a segmented download.
#[derive(Clone, Copy, Debug, PartialEq, Eq)]
pub enum ProbeError {
    /// The response states no content length.
    NoContentLength,
    /// The content length is zero.
    EmptyContent,
    /// `Accept-Ranges` is missing or is not `bytes`.
    NoRangeSupport,
    /// The path of the final URL ends in no file name.
    NoFileName,
}

/// The `Accept-Ranges` value that announces byte-range requests.
pub open spec fn bytes_token() -> Seq<char> {
    seq!['b', 'y', 't', 'e', 's']
}

fn is_bytes_token(v: &str) -> (r: bool)
    ensures
        r == (v@ == bytes_token()),
{
    let n = v.unicode_len();
    if n != 5 {
        return false;
    }
    let r = v.get_char(0) == 'b' && v.get_char(1) == 'y' && v.get_char(2) == 't'
        && v.get_char(3) == 'e' && v.get_char(4) == 's';
    proof {
        if r {
            assert(v@ =~= bytes_token());
        }
    }
    r
}

/// The content length of a probe response, if it allows a segmented
/// download: the length must be stated and positive, and `Accept-Ranges`
/// must be `bytes`.
pub fn check_probe(content_length: Option<u64>, accept_ranges: Option<&str>) -> (r: Result<
    u64,
    ProbeError,
>)
    ensures
        content_length is None ==> r == Err::<u64, ProbeError>(ProbeError::NoContentLength),
        content_length == Some(0u64) ==> r == Err::<u64, ProbeError>(ProbeError::EmptyContent),
        (content_length matches Some(n) && n > 0) && !(accept_ranges matches Some(v) && v@
            == bytes_token()) ==> r == Err::<u64, ProbeError>(ProbeError::NoRangeSupport),
        r is Ok <==> ((content_length matches Some(n) && n > 0) && (accept_ranges matches Some(v)
            && v@ == bytes_token())),
        r matches Ok(n) ==> content_length == Some(n),
{
    let n = match content_length {
        None => {
            return Err(ProbeError::NoContentLength);
        },
        Some(n) => n,
    };
    if n == 0 {
        return Err(ProbeError::EmptyContent);
    }
    match accept_ranges {
        Some(v) => {
            if is_bytes_token(v) {
                Ok(n)
            } else {
                Err(ProbeError::NoRangeSupport)
            }
        },
        None => Err(ProbeError::NoRangeSupport),
    }
}

/// The text after the last `/` of `p`, or all of `p` where it holds none.
pub open spec fn last_segment(p: Seq<char>) -> Seq<char>
    decreases p.len(),
{
    if p.len() == 0 {
        p
    } else if p.last() == '/' {
        seq![]
    } else {
        last_segment(p.drop_last()).push(p.last())
    }
}

/// The file name that a URL path ends in: the text after its last `/`,
/// or `None` where the path holds no `/` or that text is empty.
pub fn file_name_of_path(path: &str) -> (r: Option<String>)
    ensures
        !path@.contains('/') || last_segment(path@).len() == 0 ==> r is None,
        path@.contains('/') && last_segment(path@).len() > 0 ==> (r matches Some(s) && s@
            == last_segment(path@)),
{
    let n = path.unicode_len();
    let mut i: usize = 0;
    let mut start: usize = 0;
    let mut found = false;
    while i < n
        invariant
            n == path@.len(),
            start <= i <= n,
            last_segment(path@.subrange(0, i as int)) == path@.subrange(start as int, i as int),
            found == path@.subrange(0, i as int).contains('/'),
        decreases n - i,
    {
        let c = path.get_char(i);
        let ghost pre = path@.subrange(0, i as int);
        let ghost cur = path@.subrange(0, i + 1);
        assert(cur.drop_last() =~= pre);
        assert(cur.last() == c);
        proof {
            if cur.contains('/') && !pre.contains('/') {
                assert(c == '/');
            }
            if pre.contains('/') {
                let k = choose|k: int| 0 <= k < pre.len() && pre[k] == '/';
                assert(cur[k] == '/');
            }
            if c == '/' {
                assert(cur[i as int] == '/');
            }
        }
        if c == '/' {
            found = true;
            start = i + 1;
            assert(path@.subrange(start as int, i + 1) =~= seq![]);
        } else {
            assert(path@.subrange(start as int, i + 1) =~= path@.subrange(start as int, i as int).push(c));
        }
        i = i + 1;
    }
    assert(path@.subrange(0, n as int) =~= path@);
    if !found || start == n {
        return None;
    }
    let s = String::from_str(path.substring_char(start, n));
    Some(s)
}

} // verus!
