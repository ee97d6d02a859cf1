use vstd::prelude::*;
use vstd::string::StringSliceAdditionalSpecFns;

use vstd::slice::slice_to_vec;

verus! {

/// The bytes that separate tokens: space, tab, line feed, vertical tab,
/// form feed and carriage return. Only ASCII whitespace separates tokens;
/// the encodings of other Unicode spaces (U+0085, U+00A0, U+2000 and the
/// like) are ordinary token bytes.
pub open spec fn is_space(b: u8) -> bool {
    b == 32 || b == 9 || b == 10 || b == 11 || b == 12 || b == 13
}

/// Where a left-to-right scan of the request line stands.
pub struct ScanState {
    /// The tokens completed so far.
    pub tokens: Seq<Seq<u8>>,
    /// The token being read.
    pub current: Seq<u8>,
    /// Whether the first line has ended.
    pub done: bool,
}

/// The completed tokens, with the one being read if it is not empty.
pub open spec fn flushed(st: ScanState) -> Seq<Seq<u8>> {
    if st.current.len() > 0 {
        st.tokens.push(st.current)
    } else {
        st.tokens
    }
}

/// One byte of the scan.
pub open spec fn scan_step(st: ScanState, b: u8) -> ScanState {
    if st.done {
        st
    } else if is_space(b) {
        ScanState { tokens: flushed(st), current: Seq::empty(), done: b == 10 }
    } else {
        ScanState { tokens: st.tokens, current: st.current.push(b), done: false }
    }
}

/// The scan of the bytes `s`.
pub open spec fn scan(s: Seq<u8>) -> ScanState
    decreases s.len(),
{
    if s.len() == 0 {
        ScanState { tokens: Seq::empty(), current: Seq::empty(), done: false }
    } else {
        scan_step(scan(s.drop_last()), s.last())
    }
}

/// The whitespace-separated tokens of the first line of a request.
pub open spec fn line_tokens(request: Seq<u8>) -> Seq<Seq<u8>> {
    flushed(scan(request))
}

/// The method and path of a request line.
pub struct RequestLine {
    pub method: Vec<u8>,
    pub path: Vec<u8>,
}

/// Reads the method and path, the first two tokens of the first line of
/// `request`; `None` when that line has fewer than two tokens.
pub fn parse_request_line(request: &[u8]) -> (r: Option<RequestLine>)
    ensures
        match r {
            Some(line) => line_tokens(request@).len() >= 2 && line.method@ == line_tokens(
                request@,
            )[0] && line.path@ == line_tokens(request@)[1],
            None => line_tokens(request@).len() < 2,
        },
{
    let mut tokens: Vec<Vec<u8>> = Vec::new();
    let mut current: Vec<u8> = Vec::new();
    let mut done = false;
    let ghost mut seen: Seq<Seq<u8>> = Seq::empty();
    let mut i: usize = 0;
    assert(request@.subrange(0, 0) =~= Seq::<u8>::empty());
    while i < request.len()
        invariant
            i <= request@.len(),
            tokens@.len() == seen.len(),
            forall|k: int| 0 <= k < seen.len() ==> #[trigger] tokens@[k]@ == seen[k],
            seen == scan(request@.subrange(0, i as int)).tokens,
            current@ == scan(request@.subrange(0, i as int)).current,
            done == scan(request@.subrange(0, i as int)).done,
        decreases request@.len() - i,
    {
        let b = request[i];
        proof {
            let p = request@.subrange(0, i + 1);
            assert(p.drop_last() =~= request@.subrange(0, i as int));
            assert(p.last() == b);
        }
        if !done {
            if b == 32 || b == 9 || b == 10 || b == 11 || b == 12 || b == 13 {
                if current.len() > 0 {
                    proof {
                        seen = seen.push(current@);
                    }
                    let token = current;
                    current = Vec::new();
                    tokens.push(token);
                }
                done = b == 10;
            } else {
                current.push(b);
            }
        }
        proof {
            assert(current@ =~= scan(request@.subrange(0, i + 1)).current);
        }
        i += 1;
    }
    proof {
        assert(request@.subrange(0, request@.len() as int) =~= request@);
    }
    if current.len() > 0 {
        proof {
            seen = seen.push(current@);
        }
        let token = current;
        tokens.push(token);
    }
    assert(seen == line_tokens(request@));
    if tokens.len() < 2 {
        return None;
    }
    let method = slice_to_vec(tokens[0].as_slice());
    let path = slice_to_vec(tokens[1].as_slice());
    Some(RequestLine { method, path })
}

/// The file path a request path names: `/` is the index document, any
/// other path lies under the static root.
pub open spec fn resolve(path: Seq<u8>) -> Seq<u8> {
    if path == "/".spec_bytes() {
        "public_html/index.html".spec_bytes()
    } else {
        "public_html".spec_bytes() + path
    }
}

/// Maps a request path to the file path that serves it.
pub fn resolve_path(path: &[u8]) -> (r: Vec<u8>)
    ensures
        r@ == resolve(path@),
{
    if crate::bytes::bytes_eq(path, "/".as_bytes()) {
        slice_to_vec("public_html/index.html".as_bytes())
    } else {
        let mut r = slice_to_vec("public_html".as_bytes());
        crate::bytes::append_bytes(&mut r, path);
        r
    }
}

/// A `..` component of `p` begins at `i`: two dots, between separators or
/// the ends of the path.
pub open spec fn parent_at(p: Seq<u8>, i: int) -> bool {
    0 <= i && i + 2 <= p.len() && p[i] == 46 && p[i + 1] == 46 && (i == 0 || p[i - 1] == 47) && (
    i + 2 == p.len() || p[i + 2] == 47)
}

/// Whether the path has a parent-directory component anywhere.
pub open spec fn has_parent_component(p: Seq<u8>) -> bool {
    exists|i: int| parent_at(p, i)
}

/// Tests whether the path has a parent-directory component anywhere.
pub fn contains_parent_component(p: &[u8]) -> (r: bool)
    ensures
        r == has_parent_component(p@),
{
    let n: usize = p.len();
    if n < 2 {
        proof {
            assert forall|i: int| !parent_at(p@, i) by {}
        }
        return false;
    }
    let mut i: usize = 0;
    while i < n - 1
        invariant
            n == p@.len(),
            n >= 2,
            i <= n - 1,
            forall|k: int| 0 <= k < i ==> !#[trigger] parent_at(p@, k),
        decreases n - i,
    {
        if p[i] == 46 && p[i + 1] == 46 && (i == 0 || p[i - 1] == 47) && (i + 2 == n || p[i + 2] == 47) {
            assert(parent_at(p@, i as int));
            return true;
        }
        i += 1;
    }
    proof {
        assert forall|k: int| !parent_at(p@, k) by {
            if k >= i {
                assert(k + 2 > n);
            }
        }
    }
    false
}

} // verus!
