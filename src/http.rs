use vstd::prelude::*;
use vstd::string::StringSliceAdditionalSpecFns;
use vstd::utf8::encode_utf8_decode_utf8;

verus! {

/// How the demo server answers a request, chosen by its request line.
#[derive(Clone, Copy, Debug, PartialEq, Eq, Structural)]
pub enum Route {
    /// `GET /`: the greeting page.
    Hello,
    /// `GET /sleep`: the greeting page, after a pause.
    SlowHello,
    /// Anything else: the not-found page.
    NotFound,
}

/// The route of a request line, by exact match.
pub open spec fn route_of(line: Seq<char>) -> Route {
    if line == "GET / HTTP/1.1"@ {
        Route::Hello
    } else if line == "GET /sleep HTTP/1.1"@ {
        Route::SlowHello
    } else {
        Route::NotFound
    }
}

/// The decimal digits of `n`, most significant first, as ASCII bytes.
pub open spec fn decimal(n: nat) -> Seq<u8>
    decreases n,
{
    if n < 10 {
        seq![(48 + n) as u8]
    } else {
        decimal(n / 10).push((48 + n % 10) as u8)
    }
}

/// A response: status line, one `Content-Length` header giving the body's
/// length in bytes, a blank line, then the body.
pub open spec fn response_of(status_line: Seq<u8>, body: Seq<u8>) -> Seq<u8> {
    status_line + "\r\nContent-Length: ".spec_bytes() + decimal(body.len()) + "\r\n\r\n".spec_bytes()
        + body
}

fn bytes_equal(a: &[u8], b: &[u8]) -> (r: bool)
    ensures
        r == (a@ == b@),
{
    if a.len() != b.len() {
        return false;
    }
    let mut i: usize = 0;
    while i < a.len()
        invariant
            a@.len() == b@.len(),
            i <= a@.len(),
            forall|k: int| 0 <= k < i ==> a@[k] == b@[k],
        decreases a@.len() - i,
    {
        if a[i] != b[i] {
            return false;
        }
        i = i + 1;
    }
    assert(a@ =~= b@);
    true
}

fn same_text(a: &str, b: &str) -> (r: bool)
    ensures
        r == (a@ == b@),
{
    let r = bytes_equal(a.as_bytes(), b.as_bytes());
    proof {
        encode_utf8_decode_utf8(a@);
        encode_utf8_decode_utf8(b@);
    }
    r
}

/// Chooses the route for a request line.
pub fn route(request_line: &str) -> (r: Route)
    ensures
        r == route_of(request_line@),
{
    if same_text(request_line, "GET / HTTP/1.1") {
        Route::Hello
    } else if same_text(request_line, "GET /sleep HTTP/1.1") {
        Route::SlowHello
    } else {
        Route::NotFound
    }
}

impl Route {
    /// The status line that answers this route.
    pub fn status_line(&self) -> (r: &'static str)
        ensures
            r@ == (if *self is NotFound {
                "HTTP/1.1 404 NOT FOUND"@
            } else {
                "HTTP/1.1 200 OK"@
            }),
    {
        match self {
            Route::NotFound => "HTTP/1.1 404 NOT FOUND",
            _ => "HTTP/1.1 200 OK",
        }
    }

    /// The file whose contents form the body of the answer.
    pub fn page(&self) -> (r: &'static str)
        ensures
            r@ == (if *self is NotFound {
                "pages/404.html"@
            } else {
                "pages/hello.html"@
            }),
    {
        match self {
            Route::NotFound => "pages/404.html",
            _ => "pages/hello.html",
        }
    }

    /// Whether the answer is held back by a pause first.
    pub fn is_slow(&self) -> (r: bool)
        ensures
            r == (*self is SlowHello),
    {
        match self {
            Route::SlowHello => true,
            _ => false,
        }
    }
}

fn push_all(v: &mut Vec<u8>, s: &[u8])
    ensures
        final(v)@ == old(v)@ + s@,
{
    let mut i: usize = 0;
    while i < s.len()
        invariant
            i <= s@.len(),
            v@ == old(v)@ + s@.subrange(0, i as int),
        decreases s@.len() - i,
    {
        v.push(s[i]);
        i = i + 1;
        assert(v@ =~= old(v)@ + s@.subrange(0, i as int));
    }
    assert(s@.subrange(0, i as int) =~= s@);
}

/// The decimal digits of `n` as ASCII bytes.
pub fn decimal_digits(n: usize) -> (r: Vec<u8>)
    ensures
        r@ == decimal(n as nat),
{
    let mut rest: usize = n;
    let mut low: Vec<u8> = Vec::new();
    while rest >= 10
        invariant
            decimal(n as nat) == decimal(rest as nat) + low@,
        decreases rest,
    {
        let d: u8 = (48 + rest % 10) as u8;
        let mut next: Vec<u8> = vec![d];
        push_all(&mut next, low.as_slice());
        assert(decimal(rest as nat) == decimal((rest / 10) as nat).push(d));
        assert(decimal(rest as nat) + low@ =~= decimal((rest / 10) as nat) + next@);
        low = next;
        rest = rest / 10;
    }
    let mut r: Vec<u8> = vec![(48 + rest) as u8];
    push_all(&mut r, low.as_slice());
    assert(decimal(rest as nat) =~= seq![(48 + rest) as u8]);
    r
}

/// Frames `body` as a response under `status_line`.
pub fn response(status_line: &str, body: &[u8]) -> (r: Vec<u8>)
    ensures
        r@ == response_of(status_line.spec_bytes(), body@),
{
    let mut r: Vec<u8> = Vec::new();
    push_all(&mut r, status_line.as_bytes());
    push_all(&mut r, "\r\nContent-Length: ".as_bytes());
    let digits = decimal_digits(body.len());
    push_all(&mut r, digits.as_slice());
    push_all(&mut r, "\r\n\r\n".as_bytes());
    push_all(&mut r, body);
    assert(r@ =~= response_of(status_line.spec_bytes(), body@));
    r
}

} // verus!
