use vstd::prelude::*;
use vstd::string::{StringExecFns, StringSliceAdditionalSpecFns};

verus! {

/// The decimal digit for `d`.
pub open spec fn digit(d: nat) -> char {
    (48 + d) as char
}

/// `n` written in decimal digits, without leading zeros.
pub open spec fn decimal(n: nat) -> Seq<char>
    decreases n,
{
    if n < 10 {
        seq![digit(n)]
    } else {
        decimal(n / 10).push(digit(n % 10))
    }
}

/// Each character of `text` as one byte.
pub open spec fn ascii(text: Seq<char>) -> Seq<u8> {
    text.map_values(|c: char| c as u8)
}

/// `bytes` begins with `prefix`.
pub open spec fn begins_with(bytes: Seq<u8>, prefix: Seq<u8>) -> bool {
    prefix.len() <= bytes.len() && bytes.take(prefix.len() as int) == prefix
}

/// The request asks for the front page: it begins with the request line
/// `GET / HTTP/1.1`.
pub open spec fn asks_for_front_page(request: Seq<u8>) -> bool {
    begins_with(request, ascii("GET / HTTP/1.1\r\n"@))
}

/// The status line of the answer to `request`.
pub open spec fn status_line(request: Seq<u8>) -> Seq<char> {
    if asks_for_front_page(request) {
        "HTTP/1.1 200 OK"@
    } else {
        "HTTP/1.1 404 NOT FOUND"@
    }
}

/// The name of the file that is sent in answer to `request`.
pub open spec fn page(request: Seq<u8>) -> Seq<char> {
    if asks_for_front_page(request) {
        "hello.html"@
    } else {
        "404.html"@
    }
}

/// The answer with the status line `status` and the body `contents`, whose
/// length in bytes is `length`.
pub open spec fn answer(status: Seq<char>, length: nat, contents: Seq<char>) -> Seq<char> {
    status + "\r\nContent-Length: "@ + decimal(length) + "\r\n\r\n"@ + contents
}

/// Whether `bytes` begins with `prefix`.
pub fn starts_with(bytes: &[u8], prefix: &[u8]) -> (found: bool)
    ensures
        found == begins_with(bytes@, prefix@),
{
    if prefix.len() > bytes.len() {
        return false;
    }
    let mut k: usize = 0;
    while k < prefix.len()
        invariant
            k <= prefix.len() <= bytes.len(),
            forall|j: int| 0 <= j < k ==> bytes@[j] == prefix@[j],
        decreases prefix.len() - k,
    {
        if bytes[k] != prefix[k] {
            assert(bytes@.take(prefix.len() as int)[k as int] != prefix@[k as int]);
            return false;
        }
        k = k + 1;
    }
    assert(bytes@.take(prefix.len() as int) =~= prefix@);
    true
}

/// Decides how to answer `request`: with which status line, and with the
/// contents of which file. A request for the front page is answered with
/// it, any other with the page for what was not found.
pub fn route(request: &[u8]) -> (reply: (&'static str, &'static str))
    ensures
        reply.0@ == status_line(request@),
        reply.1@ == page(request@),
{
    let get = "GET / HTTP/1.1\r\n";
    proof {
        reveal_strlit("GET / HTTP/1.1\r\n");
        vstd::string::is_ascii_spec_bytes(get);
        assert(get.spec_bytes() =~= ascii(get@));
    }
    if starts_with(request, get.as_bytes()) {
        ("HTTP/1.1 200 OK", "hello.html")
    } else {
        ("HTTP/1.1 404 NOT FOUND", "404.html")
    }
}

/// The decimal digit for `d`, as a string.
fn digit_str(d: usize) -> (text: &'static str)
    requires
        d < 10,
    ensures
        text@ == seq![digit(d as nat)],
{
    proof {
        reveal_strlit("0");
        reveal_strlit("1");
        reveal_strlit("2");
        reveal_strlit("3");
        reveal_strlit("4");
        reveal_strlit("5");
        reveal_strlit("6");
        reveal_strlit("7");
        reveal_strlit("8");
        reveal_strlit("9");
    }
    let text = if d == 0 {
        "0"
    } else if d == 1 {
        "1"
    } else if d == 2 {
        "2"
    } else if d == 3 {
        "3"
    } else if d == 4 {
        "4"
    } else if d == 5 {
        "5"
    } else if d == 6 {
        "6"
    } else if d == 7 {
        "7"
    } else if d == 8 {
        "8"
    } else {
        "9"
    };
    assert(text@ =~= seq![digit(d as nat)]);
    text
}

/// `n` in decimal digits.
pub fn decimal_string(n: usize) -> (text: String)
    ensures
        text@ == decimal(n as nat),
    decreases n,
{
    if n < 10 {
        String::from_str(digit_str(n))
    } else {
        let mut text = decimal_string(n / 10);
        text.append(digit_str(n % 10));
        assert(text@ =~= decimal(n as nat));
        text
    }
}

/// Builds the answer to a request: the status line, the length of the body
/// in bytes under `Content-Length`, an empty line, and the body.
pub fn response(status: &str, contents: &str) -> (text: String)
    ensures
        text@ == answer(status@, contents.len() as nat, contents@),
{
    let mut text = String::from_str(status);
    text.append("\r\nContent-Length: ");
    let length = decimal_string(contents.len());
    text.append(length.as_str());
    text.append("\r\n\r\n");
    text.append(contents);
    text
}

} // verus!
