//! The one HTTP request that the monitor makes, and what it takes from the reply.

use vstd::prelude::*;
use vstd::string::StringExecFns;

use crate::outside::{decode_lossy, read_text};
use crate::smi::text_result;
use crate::text::{
    chars_of, find, find_from, first_at, joined, law_leftmost_place_is_found, lemma_find,
    lemma_find_is, occurs_at, piece,
};

verus! {

/// How an exchange with a server ended.
pub enum HttpExchange {
    /// No connection, for the reason given.
    NotConnected(String),
    /// The request could not be written, for the reason given.
    NotWritten(String),
    /// The reply could not be read, for the reason given.
    NotRead(String),
    /// The server replied with these bytes.
    Received(Vec<u8>),
}

/// The request for `path` on a server.
pub open spec fn request_text(host_port: Seq<char>, path: Seq<char>) -> Seq<char> {
    "GET "@ + path + " HTTP/1.1\r\nHost: "@ + host_port + "\r\nConnection: close\r\n\r\n"@
}

/// The blank line that ends the head of a reply.
pub open spec fn head_end() -> Seq<char> {
    seq!['\r', '\n', '\r', '\n']
}

/// What follows the head of a reply, or all of it where no blank line ends the head.
pub open spec fn body_text(reply: Seq<char>) -> Seq<char> {
    match find(reply, head_end()) {
        Some(i) => reply.skip(i + 4),
        None => reply,
    }
}

/// The body that an exchange brought, or why it brought none.
pub open spec fn exchange_text(host_port: Seq<char>, exchange: HttpExchange) -> Result<
    Seq<char>,
    Seq<char>,
> {
    match exchange {
        HttpExchange::NotConnected(reason) => Err("connect "@ + host_port + ": "@ + reason@),
        HttpExchange::NotWritten(reason) => Err("write: "@ + reason@),
        HttpExchange::NotRead(reason) => Err("read: "@ + reason@),
        HttpExchange::Received(bytes) => Ok(body_text(read_text(bytes@))),
    }
}

/// The request for `path` on a server.
pub fn http_request(host_port: &str, path: &str) -> (r: String)
    ensures
        r@ == request_text(host_port@, path@),
{
    let mut r = "GET ".to_owned();
    r.append(path);
    r.append(" HTTP/1.1\r\nHost: ");
    r.append(host_port);
    r.append("\r\nConnection: close\r\n\r\n");
    r
}

/// What follows the head of a reply, or all of it where no blank line ends the head.
pub fn http_body(reply: &str) -> (r: String)
    ensures
        r@ == body_text(reply@),
{
    let chars = chars_of(reply);
    let mark: Vec<char> = vec!['\r', '\n', '\r', '\n'];
    assert(mark@ == head_end());
    assert(chars@.skip(0) == reply@);
    proof {
        lemma_find(reply@, head_end());
    }
    let total: usize = chars.len();
    match find_from(&chars, 0, &mark) {
        Some(i) => {
            let r = piece(reply, i + 4, total);
            assert(r@ == reply@.skip(i + 4));
            r
        },
        None => reply.to_owned(),
    }
}

/// The body that an exchange brought, or why it brought none.
pub fn http_outcome(host_port: &str, exchange: &HttpExchange) -> (r: Result<String, String>)
    ensures
        text_result(r) == exchange_text(host_port@, *exchange),
        match *exchange {
            HttpExchange::NotConnected(reason) => r matches Err(e) && e@ == "connect "@ + host_port@
                + ": "@ + reason@,
            HttpExchange::NotWritten(reason) => r matches Err(e) && e@ == "write: "@ + reason@,
            HttpExchange::NotRead(reason) => r matches Err(e) && e@ == "read: "@ + reason@,
            HttpExchange::Received(bytes) => r matches Ok(body) && body@ == body_text(
                read_text(bytes@),
            ),
        },
{
    match exchange {
        HttpExchange::NotConnected(reason) => {
            let mut message = "connect ".to_owned();
            message.append(host_port);
            message.append(": ");
            message.append(reason.as_str());
            Err(message)
        },
        HttpExchange::NotWritten(reason) => {
            let mut message = "write: ".to_owned();
            message.append(reason.as_str());
            Err(message)
        },
        HttpExchange::NotRead(reason) => {
            let mut message = "read: ".to_owned();
            message.append(reason.as_str());
            Err(message)
        },
        HttpExchange::Received(bytes) => Ok(http_body(decode_lossy(bytes.as_slice()).as_str())),
    }
}

/// Asks a server for `path`: hands the request to `exchange` and takes the body from what it
/// brings back.
pub fn http_get<F: FnOnce(String) -> HttpExchange>(
    host_port: &str,
    path: &str,
    exchange: F,
) -> (r: Result<String, String>)
    requires
        forall|request: String|
            request@ == request_text(host_port@, path@) ==> #[trigger] exchange.requires(
                (request,),
            ),
    ensures
        exists|request: String, reply: HttpExchange| #[trigger]
            exchange.ensures((request,), reply) && request@ == request_text(host_port@, path@)
                && text_result(r) == exchange_text(host_port@, reply),
{
    let request = http_request(host_port, path);
    let ghost sent = request;
    let reply = exchange(request);
    assert(exchange.ensures((sent,), reply));
    http_outcome(host_port, &reply)
}

/// The body that a server sends comes back unchanged, whatever the body holds, where its head
/// holds no blank line before its end.
pub proof fn law_body_is_read_back(head: Seq<char>, body: Seq<char>)
    requires
        first_at(head + head_end() + body, head_end(), head.len() as int),
    ensures
        body_text(head + head_end() + body) == body,
{
    let mark = head_end();
    let reply = head + mark + body;
    let at = head.len() as int;
    assert(mark.len() == 4);
    assert(find(reply, mark) == Some(at)) by {
        lemma_find_is(reply, mark, at);
    }
    assert(reply.skip(at + 4) =~= body);
}

/// A request is made of lines, each ended by a carriage return and a line feed: what is asked for,
/// of which host, that the connection ends with the reply, and an empty line.
pub proof fn law_request_is_made_of_lines(host_port: Seq<char>, path: Seq<char>)
    ensures
        request_text(host_port, path) == joined(
            seq![
                "GET "@ + path + " HTTP/1.1"@,
                "Host: "@ + host_port,
                "Connection: close"@,
                Seq::empty(),
                Seq::empty(),
            ],
            seq!['\r', '\n'],
        ),
{
    reveal_strlit("GET ");
    reveal_strlit(" HTTP/1.1");
    reveal_strlit("Host: ");
    reveal_strlit("Connection: close");
    reveal_strlit(" HTTP/1.1\r\nHost: ");
    reveal_strlit("\r\nConnection: close\r\n\r\n");
    let end = seq!['\r', '\n'];
    let a = "GET "@ + path + " HTTP/1.1"@;
    let b = "Host: "@ + host_port;
    let c = "Connection: close"@;
    let none = Seq::<char>::empty();
    let all = seq![a, b, c, none, none];
    assert(all.drop_last() =~= seq![a, b, c, none]);
    assert(seq![a, b, c, none].drop_last() =~= seq![a, b, c]);
    assert(seq![a, b, c].drop_last() =~= seq![a, b]);
    assert(seq![a, b].drop_last() =~= seq![a]);
    assert(joined(seq![a], end) == a);
    assert(joined(seq![a, b], end) == a + end + b);
    assert(joined(seq![a, b, c], end) == a + end + b + end + c);
    assert(joined(seq![a, b, c, none], end) == a + end + b + end + c + end + none);
    assert(joined(all, end) == a + end + b + end + c + end + none + end + none);
    assert(" HTTP/1.1\r\nHost: "@ =~= " HTTP/1.1"@ + end + "Host: "@);
    assert("\r\nConnection: close\r\n\r\n"@ =~= end + c + end + end);
    assert(request_text(host_port, path) =~= joined(all, end));
}

/// The body of a reply is all that follows its first blank line; a reply without a blank line is
/// a body as a whole.
pub proof fn law_body_follows_the_first_blank_line(head: Seq<char>, body: Seq<char>)
    ensures
        ({
            let reply = head + seq!['\r', '\n', '\r', '\n'] + body;
            (forall|j: int|
                0 <= j < head.len() ==> #[trigger] reply.subrange(j, j + 4) != seq![
                    '\r',
                    '\n',
                    '\r',
                    '\n',
                ]) ==> body_text(reply) == body
        }),
        (forall|j: int|
            0 <= j <= body.len() - 4 ==> #[trigger] body.subrange(j, j + 4) != seq![
                '\r',
                '\n',
                '\r',
                '\n',
            ]) ==> body_text(body) == body,
{
    let mark = seq!['\r', '\n', '\r', '\n'];
    let reply = head + mark + body;
    let at = head.len() as int;
    assert(head_end() == mark);
    if forall|j: int| 0 <= j < at ==> #[trigger] reply.subrange(j, j + 4) != mark {
        assert(reply.subrange(at, at + 4) =~= mark);
        assert forall|j: int| 0 <= j < at implies !occurs_at(reply, mark, j) by {
            assert(reply.subrange(j, j + 4) != mark);
        }
        lemma_find_is(reply, mark, at);
        assert(reply.skip(at + 4) =~= body);
    }
    if forall|j: int| 0 <= j <= body.len() - 4 ==> #[trigger] body.subrange(j, j + 4) != mark {
        law_leftmost_place_is_found(body, mark);
        if find(body, mark) is Some {
            let k = find(body, mark)->0;
            assert(body.subrange(k, k + 4) != mark);
        }
    }
}

/// An exchange that fails says at which step and why; one that brings a reply gives its body.
pub proof fn law_exchange_says_where_it_failed(
    host_port: Seq<char>,
    reason: String,
    bytes: Vec<u8>,
)
    ensures
        exchange_text(host_port, HttpExchange::NotConnected(reason)) == Err::<
            Seq<char>,
            Seq<char>,
        >("connect "@ + host_port + ": "@ + reason@),
        exchange_text(host_port, HttpExchange::NotWritten(reason)) == Err::<Seq<char>, Seq<char>>(
            "write: "@ + reason@,
        ),
        exchange_text(host_port, HttpExchange::NotRead(reason)) == Err::<Seq<char>, Seq<char>>(
            "read: "@ + reason@,
        ),
        exchange_text(host_port, HttpExchange::Received(bytes)) == Ok::<Seq<char>, Seq<char>>(
            body_text(read_text(bytes@)),
        ),
{
}

} // verus!
