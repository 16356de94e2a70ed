//! The JSON-RPC messages that are exchanged with `codex app-server --stdio`,
//! one per line.
use crate::appserver::{Failure, FetchError};
use crate::json::{
    compact, encode, integer, member, members, nesting_is_monotone, parse, parsed, well_formed, writable, writable_within,
    Json, Number, Tree, MAX_NESTING,
};
use crate::text::{decode, decoded, trim, trimmed};
use vstd::prelude::*;
use vstd::utf8::encode_utf8;

verus! {

/// The byte that ends a line.
pub const LINE_FEED: u8 = 0x0A;

/// An integer as a document.
pub open spec fn integer_tree(n: int) -> Tree {
    if n < 0 {
        Tree::Number(Number::Negative(n as i64))
    } else {
        Tree::Number(Number::Unsigned(n as u64))
    }
}

/// A request for `method`.
pub open spec fn request_tree(method: Seq<char>, id: int, params: Tree) -> Tree {
    Tree::Object(
        map!["method"@ => Tree::Text(method), "id"@ => integer_tree(id), "params"@ => params],
    )
}

/// The request that opens a connection.
pub open spec fn initialize_tree(id: int) -> Tree {
    request_tree(
        "initialize"@,
        id,
        Tree::Object(
            map![
                "protocolVersion"@ => integer_tree(1),
                "capabilities"@ => Tree::Object(map![]),
                "clientInfo"@ => Tree::Object(
                    map!["name"@ => Tree::Text("codex-gauge"@), "version"@ => Tree::Text("0.1.0"@)],
                ),
            ],
        ),
    )
}

/// The request that reads the rate limits.
pub open spec fn read_limits_tree(id: int) -> Tree {
    request_tree("account/rateLimits/read"@, id, Tree::Object(map![]))
}

/// The bytes of a message: its compact text and a line feed.
pub open spec fn line_of(message: Tree) -> Seq<u8> {
    encode_utf8(compact(message)).push(LINE_FEED)
}

fn integer_json(n: i64) -> (r: Json)
    ensures
        r@ == integer_tree(n as int),
        forall|limit: nat| #[trigger] writable_within(r, limit),
{
    if n < 0 {
        Json::Number(Number::Negative(n))
    } else {
        Json::Number(Number::Unsigned(n as u64))
    }
}

fn text_json(s: &str) -> (r: Json)
    ensures
        r@ == Tree::Text(s@),
        forall|limit: nat| #[trigger] writable_within(r, limit),
{
    Json::Text(s.to_string())
}

/// An object with no members.
fn empty_object() -> (r: Json)
    ensures
        r@ == Tree::Object(map![]),
        forall|limit: nat| limit > 0 ==> #[trigger] writable_within(r, limit),
{
    let entries: Vec<(String, Json)> = Vec::new();
    assert(members(entries@) =~= map![]);
    Json::Object(entries)
}

/// An object with two members, each nested within `limit`.
fn object_of_two(k0: &str, v0: Json, k1: &str, v1: Json, Ghost(limit): Ghost<nat>) -> (r: Json)
    requires
        writable_within(v0, limit),
        writable_within(v1, limit),
        k0@ != k1@,
    ensures
        r@ == Tree::Object(map![k0@ => v0@, k1@ => v1@]),
        writable_within(r, limit + 1),
{
    let mut entries: Vec<(String, Json)> = Vec::new();
    entries.push((k0.to_string(), v0));
    entries.push((k1.to_string(), v1));
    proof {
        let e = entries@;
        let e1 = e.drop_last();
        let e0 = e1.drop_last();
        assert(e0 =~= Seq::empty());
        assert(members(e1) == members(e0).insert(k0@, v0@));
        assert(members(e) =~= map![k0@ => v0@, k1@ => v1@]);
    }
    Json::Object(entries)
}

/// An object with three members, each nested within `limit`.
fn object_of_three(
    k0: &str,
    v0: Json,
    k1: &str,
    v1: Json,
    k2: &str,
    v2: Json,
    Ghost(limit): Ghost<nat>,
) -> (r: Json)
    requires
        writable_within(v0, limit),
        writable_within(v1, limit),
        writable_within(v2, limit),
        k0@ != k1@,
        k0@ != k2@,
        k1@ != k2@,
    ensures
        r@ == Tree::Object(map![k0@ => v0@, k1@ => v1@, k2@ => v2@]),
        writable_within(r, limit + 1),
{
    let mut entries: Vec<(String, Json)> = Vec::new();
    entries.push((k0.to_string(), v0));
    entries.push((k1.to_string(), v1));
    entries.push((k2.to_string(), v2));
    proof {
        let e = entries@;
        let e2 = e.drop_last();
        let e1 = e2.drop_last();
        let e0 = e1.drop_last();
        assert(e0 =~= Seq::empty());
        assert(members(e1) == members(e0).insert(k0@, v0@));
        assert(members(e2) == members(e1).insert(k1@, v1@));
        assert(members(e) =~= map![k0@ => v0@, k1@ => v1@, k2@ => v2@]);
    }
    Json::Object(entries)
}

/// The request that opens a connection.
pub fn initialize_request(id: i64) -> (r: Json)
    ensures
        r@ == initialize_tree(id as int),
        writable(r),
{
    proof {
        reveal_strlit("name");
        reveal_strlit("version");
        reveal_strlit("protocolVersion");
        reveal_strlit("capabilities");
        reveal_strlit("clientInfo");
        reveal_strlit("method");
        reveal_strlit("id");
        reveal_strlit("params");
        assert("name"@.len() < "version"@.len());
        assert("clientInfo"@.len() < "capabilities"@.len() < "protocolVersion"@.len());
        assert("id"@.len() < "params"@.len());
        assert("method"@[0] != "params"@[0]);
    }
    let client = object_of_two("name", text_json("codex-gauge"), "version", text_json("0.1.0"), Ghost(0));
    let params = object_of_three(
        "protocolVersion",
        integer_json(1),
        "capabilities",
        empty_object(),
        "clientInfo",
        client,
        Ghost(1),
    );
    let request = object_of_three(
        "method",
        text_json("initialize"),
        "id",
        integer_json(id),
        "params",
        params,
        Ghost(2),
    );
    proof {
        nesting_is_monotone(request, 3, MAX_NESTING as nat);
    }
    request
}

/// The request that reads the rate limits.
pub fn read_limits_request(id: i64) -> (r: Json)
    ensures
        r@ == read_limits_tree(id as int),
        writable(r),
{
    proof {
        reveal_strlit("method");
        reveal_strlit("id");
        reveal_strlit("params");
        assert("id"@.len() < "params"@.len());
        assert("method"@[0] != "params"@[0]);
    }
    let request = object_of_three(
        "method",
        text_json("account/rateLimits/read"),
        "id",
        integer_json(id),
        "params",
        empty_object(),
        Ghost(1),
    );
    proof {
        nesting_is_monotone(request, 2, MAX_NESTING as nat);
    }
    request
}

/// Puts a message into the form in which it is written: one line.
pub fn encode_line(message: &Json) -> (r: Result<Vec<u8>, FetchError>)
    requires
        writable(*message),
    ensures
        r is Ok,
        r->Ok_0@ == line_of(message@),
        forall|i: int| 0 <= i < r->Ok_0@.len() - 1 ==> #[trigger] r->Ok_0@[i] != LINE_FEED,
{
    match encode(message) {
        Ok(bytes) => {
            let mut buf = bytes;
            let ghost before = buf@;
            buf.push(LINE_FEED);
            assert forall|i: int| 0 <= i < buf@.len() - 1 implies #[trigger] buf@[i] != LINE_FEED by {
                assert(buf@[i] == before[i]);
                assert(before.contains(before[i]));
            }
            Ok(buf)
        },
        Err(e) => Err(FetchError::Io(e)),
    }
}

/// The first line in `bytes` has this length, its line feed counted.
pub open spec fn is_first_line(bytes: Seq<u8>, length: nat) -> bool {
    &&& 0 < length <= bytes.len()
    &&& bytes[length - 1] == LINE_FEED
    &&& forall|i: int| 0 <= i < length - 1 ==> #[trigger] bytes[i] != LINE_FEED
}

/// The length of the first line in `bytes`, its line feed counted; none where
/// no line has come to its end.
pub open spec fn line_length(bytes: Seq<u8>) -> Option<nat>
    decreases bytes.len(),
{
    if bytes.len() == 0 {
        None
    } else if bytes[0] == LINE_FEED {
        Some(1)
    } else {
        match line_length(bytes.drop_first()) {
            Some(n) => Some(n + 1),
            None => None,
        }
    }
}

/// `line_length` finds the first line, and misses none.
pub proof fn first_line_is_found(bytes: Seq<u8>)
    ensures
        match line_length(bytes) {
            Some(n) => is_first_line(bytes, n),
            None => !bytes.contains(LINE_FEED),
        },
    decreases bytes.len(),
{
    if bytes.len() > 0 && bytes[0] != LINE_FEED {
        let rest = bytes.drop_first();
        first_line_is_found(rest);
        match line_length(rest) {
            Some(n) => {
                assert(bytes[n as int] == rest[n - 1]);
                assert forall|i: int| 0 <= i < n implies #[trigger] bytes[i] != LINE_FEED by {
                    if i > 0 {
                        assert(bytes[i] == rest[i - 1]);
                    }
                }
            },
            None => {
                assert forall|i: int| 0 <= i < bytes.len() implies #[trigger] bytes[i] != LINE_FEED by {
                    if i > 0 {
                        assert(bytes[i] == rest[i - 1]);
                        assert(rest.contains(rest[i - 1]));
                    }
                }
            },
        }
    }
}

/// There is only one first line.
proof fn lemma_first_line_is_unique(bytes: Seq<u8>, n: nat)
    requires
        is_first_line(bytes, n),
    ensures
        line_length(bytes) == Some(n),
{
    first_line_is_found(bytes);
    assert(bytes.contains(bytes[n - 1]));
    let m = line_length(bytes)->Some_0;
    if m < n {
        assert(bytes[m - 1] == LINE_FEED);
    } else if n < m {
        assert(bytes[n - 1] == LINE_FEED);
    }
}

/// What comes after a line does not change where the line ends.
pub proof fn first_line_is_settled(bytes: Seq<u8>, more: Seq<u8>)
    requires
        line_length(bytes) is Some,
    ensures
        line_length(bytes + more) == line_length(bytes),
{
    first_line_is_found(bytes);
    lemma_first_line_is_unique(bytes + more, line_length(bytes)->Some_0);
}

/// Looks for the end of the first line.
pub fn find_line(bytes: &Vec<u8>) -> (r: Option<usize>)
    ensures
        match r {
            Some(n) => line_length(bytes@) == Some(n as nat),
            None => line_length(bytes@) is None,
        },
{
    let mut i: usize = 0;
    while i < bytes.len()
        invariant
            i <= bytes@.len(),
            forall|j: int| 0 <= j < i ==> #[trigger] bytes@[j] != LINE_FEED,
        decreases bytes@.len() - i,
    {
        if bytes[i] == LINE_FEED {
            proof {
                lemma_first_line_is_unique(bytes@, (i + 1) as nat);
            }
            return Some(i + 1);
        }
        i = i + 1;
    }
    proof {
        first_line_is_found(bytes@);
    }
    None
}

/// What a line means for the request that waits for its answer.
#[derive(Debug)]
pub enum Verdict {
    /// The line is not the answer.
    Skip,
    /// The line settles the request.
    Finished(Result<Json, FetchError>),
}

/// A verdict with its contents spelled out.
pub enum Judgement {
    Skip,
    Finished(Result<Tree, Failure>),
}

impl View for Verdict {
    type V = Judgement;

    open spec fn view(&self) -> Judgement {
        match self {
            Verdict::Skip => Judgement::Skip,
            Verdict::Finished(Ok(j)) => Judgement::Finished(Ok(j@)),
            Verdict::Finished(Err(e)) => Judgement::Finished(Err(e@)),
        }
    }
}

/// Whether `reply` answers the request `want_id`; notifications have no id.
pub open spec fn answers(reply: Tree, want_id: int) -> bool {
    match member(reply, "id"@) {
        Some(id) => integer(id) matches Some(n) && n == want_id,
        None => false,
    }
}

/// What a reply means whose `error`, where it has one, reads `error`.
pub open spec fn reply_judgement(reply: Tree, error: Option<Seq<char>>, want_id: int) -> Judgement {
    if !answers(reply, want_id) {
        Judgement::Skip
    } else {
        match error {
            Some(text) => Judgement::Finished(Err(Failure::Rpc(text))),
            None => match member(reply, "result"@) {
                Some(result) => Judgement::Finished(Ok(result)),
                None => Judgement::Finished(Err(Failure::Rpc("response missing result"@))),
            },
        }
    }
}

/// The text of the `error` of a reply.
pub open spec fn error_text(reply: Tree) -> Option<Seq<char>> {
    match member(reply, "error"@) {
        Some(e) => Some(compact(e)),
        None => None,
    }
}

/// What a line means: blank lines are skipped, and what is no JSON is an error.
pub open spec fn line_judgement(line: Seq<char>, want_id: int) -> Judgement {
    let text = trimmed(line);
    if text.len() == 0 {
        Judgement::Skip
    } else {
        match parsed(text) {
            Ok(reply) => reply_judgement(reply, error_text(reply), want_id),
            Err(e) => Judgement::Finished(Err(Failure::Rpc(e))),
        }
    }
}

/// A text that may be missing, spelled out.
pub open spec fn text_view(s: Option<String>) -> Option<Seq<char>> {
    match s {
        Some(t) => Some(t@),
        None => None,
    }
}

/// Decides what a reply means for the request `want_id`; `error` is the text
/// of its `error` member.
pub fn judge_reply(reply: Json, error: Option<String>, want_id: i64) -> (r: Verdict)
    ensures
        r@ == reply_judgement(reply@, text_view(error), want_id as int),
        well_formed(reply) ==> (r matches Verdict::Finished(Ok(j)) ==> well_formed(j)),
{
    let is_answer: bool = match reply.get("id") {
        Some(id) => match id.as_i64() {
            Some(n) => n == want_id,
            None => false,
        },
        None => false,
    };
    if !is_answer {
        return Verdict::Skip;
    }
    match error {
        Some(text) => Verdict::Finished(Err(FetchError::Rpc(text))),
        None => match reply.into_member("result") {
            Some(result) => Verdict::Finished(Ok(result)),
            None => Verdict::Finished(Err(FetchError::Rpc("response missing result".to_string()))),
        },
    }
}

/// Decides what a line means for the request `want_id`.
pub fn judge_line(line: &str, want_id: i64) -> (r: Verdict)
    ensures
        r@ == line_judgement(line@, want_id as int),
        r matches Verdict::Finished(Ok(j)) ==> well_formed(j),
{
    let text = trim(line);
    if text.is_empty() {
        return Verdict::Skip;
    }
    match parse(text, "error") {
        Ok((reply, error)) => judge_reply(reply, error, want_id),
        Err(e) => Verdict::Finished(Err(FetchError::Rpc(e))),
    }
}

/// What the bytes of a line mean: what is no UTF-8 is an error.
pub open spec fn bytes_judgement(line: Seq<u8>, want_id: int) -> Judgement {
    match decoded(line) {
        Some(text) => line_judgement(text, want_id),
        None => Judgement::Finished(Err(Failure::Io("stream did not contain valid UTF-8"@))),
    }
}

/// Decides what the bytes of a line mean for the request `want_id`.
pub fn judge_bytes(line: Vec<u8>, want_id: i64) -> (r: Verdict)
    ensures
        r@ == bytes_judgement(line@, want_id as int),
        r matches Verdict::Finished(Ok(j)) ==> well_formed(j),
{
    match decode(line) {
        Some(text) => judge_line(text.as_str(), want_id),
        None => Verdict::Finished(Err(FetchError::Io("stream did not contain valid UTF-8".to_string()))),
    }
}

} // verus!
