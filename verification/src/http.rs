//! The plain-text pieces of the dataset-registration HTTP service: the
//! request and response records and the byte-level helpers. The sockets and
//! the service loop live outside the library.

use vstd::prelude::*;
use vstd::string::StringSliceAdditionalSpecFns;

verus! {

/// A parsed HTTP request: the method, the path, the headers in arrival
/// order, and the body bytes.
#[derive(Debug, Clone)]
pub struct HttpRequest {
    pub method: String,
    pub path: String,
    pub headers: Vec<(String, String)>,
    pub body: Vec<u8>,
}

/// An HTTP response: the status code, the content type, and the body bytes.
pub struct HttpResponse {
    pub status: u16,
    pub content_type: String,
    pub body: Vec<u8>,
}

/// A plain-text response with the given status.
pub fn text_response(status: u16, s: String) -> (r: HttpResponse)
    ensures
        r.status == status,
        r.content_type@ == "text/plain"@,
        r.body@ == vstd::utf8::encode_utf8(s@),
{
    let body = s.as_str().as_bytes_vec();
    HttpResponse {
        status,
        content_type: <String as vstd::string::StringExecFns>::from_str("text/plain"),
        body,
    }
}

/// Whether the needle occurs at a position of the haystack.
pub open spec fn match_at(haystack: Seq<u8>, needle: Seq<u8>, i: int) -> bool {
    &&& 0 <= i
    &&& i + needle.len() <= haystack.len()
    &&& haystack.subrange(i, i + needle.len()) == needle
}

/// The first position where the needle occurs in the haystack, if any; an
/// empty needle matches at the front.
pub fn find_subslice(haystack: &Vec<u8>, needle: &Vec<u8>) -> (r: Option<usize>)
    ensures
        match r {
            Some(i) => match_at(haystack@, needle@, i as int) && (forall|j: int|
                0 <= j < i ==> !match_at(haystack@, needle@, j)),
            None => forall|j: int| !match_at(haystack@, needle@, j),
        },
{
    let nl = needle.len();
    let hl = haystack.len();
    if nl > hl {
        proof {
            assert forall|j: int| !match_at(haystack@, needle@, j) by {}
        }
        return None;
    }
    let mut i: usize = 0;
    while i <= hl - nl
        invariant
            nl <= hl,
            nl == needle@.len(),
            hl == haystack@.len(),
            i <= hl - nl + 1,
            forall|j: int| 0 <= j < i ==> !match_at(haystack@, needle@, j),
        decreases hl - nl - i + 1,
    {
        let mut k: usize = 0;
        let mut hit = true;
        while k < nl
            invariant
                nl == needle@.len(),
                hl == haystack@.len(),
                i + nl <= hl,
                k <= nl,
                hit <==> (forall|q: int| 0 <= q < k ==> haystack@[i + q] == needle@[q]),
            decreases nl - k,
        {
            if haystack[i + k] != needle[k] {
                proof {
                    assert(!(haystack@[i + k as int] == needle@[k as int]));
                }
                hit = false;
                k = nl;
            } else {
                k += 1;
            }
        }
        if hit {
            proof {
                assert(haystack@.subrange(i as int, i + nl as int) =~= needle@);
            }
            return Some(i);
        }
        proof {
            if match_at(haystack@, needle@, i as int) {
                assert forall|q: int|
                    0 <= q < nl implies haystack@[i + q] == needle@[q] by {
                    assert(haystack@.subrange(i as int, i + nl as int)[q] == haystack@[i + q]);
                }
                assert(false);
            }
        }
        i += 1;
    }
    proof {
        assert forall|j: int| !match_at(haystack@, needle@, j) by {
            if 0 <= j && j + nl <= hl {
                assert(j < i);
            }
        }
    }
    None
}

} // verus!
