//! What is asked of the program, and what each of its lines means, said of the
//! members that the messages have.
use crate::appserver::Failure;
use crate::json::{compact, parsed, Number, Tree};
use crate::protocol::{
    bytes_judgement, error_text, initialize_tree, line_of, read_limits_tree, reply_judgement, Judgement,
};
use crate::text::decoded;
use crate::text_laws::{decoding_undoes_encoding, is_bare, is_blank, padding_is_trimmed};
use vstd::prelude::*;
use vstd::utf8::encode_utf8;

verus! {

/// `tree` is the number `n`.
pub open spec fn is_integer(tree: Tree, n: int) -> bool {
    ||| tree matches Tree::Number(Number::Unsigned(m)) && m == n
    ||| tree matches Tree::Number(Number::Negative(m)) && m == n
}

/// A request names its method, carries its id, and has its parameters; it has no
/// other members.
pub open spec fn is_request(message: Tree, method: Seq<char>, id: int, params: Map<Seq<char>, Tree>) -> bool {
    &&& message matches Tree::Object(m)
    &&& m.dom() == set!["method"@, "id"@, "params"@]
    &&& m["method"@] == Tree::Text(method)
    &&& is_integer(m["id"@], id)
    &&& m["params"@] == Tree::Object(params)
}

/// The quota is asked for by its method, under the id that was given, without
/// parameters.
pub proof fn quota_is_asked_for(id: int)
    requires
        i64::MIN <= id <= i64::MAX,
    ensures
        is_request(read_limits_tree(id), "account/rateLimits/read"@, id, Map::empty()),
{
    lemma_keys_differ();
    let m = read_limits_tree(id)->Object_0;
    assert(m.dom() =~= set!["method"@, "id"@, "params"@]);
}

/// A connection is opened by the handshake, under the id that was given: it
/// names the version of the protocol, no capabilities, and this program.
pub proof fn handshake_introduces_the_program(id: int)
    requires
        i64::MIN <= id <= i64::MAX,
    ensures
        ({
            let params = initialize_tree(id)->Object_0["params"@]->Object_0;
            let client = params["clientInfo"@]->Object_0;
            &&& is_request(initialize_tree(id), "initialize"@, id, params)
            &&& params.dom() == set!["protocolVersion"@, "capabilities"@, "clientInfo"@]
            &&& is_integer(params["protocolVersion"@], 1)
            &&& params["capabilities"@] == Tree::Object(Map::empty())
            &&& params["clientInfo"@] is Object
            &&& client.dom() == set!["name"@, "version"@]
            &&& client["name"@] == Tree::Text("codex-gauge"@)
            &&& client["version"@] == Tree::Text("0.1.0"@)
        }),
{
    lemma_keys_differ();
    let m = initialize_tree(id)->Object_0;
    let params = m["params"@]->Object_0;
    let client = params["clientInfo"@]->Object_0;
    assert(m.dom() =~= set!["method"@, "id"@, "params"@]);
    assert(params.dom() =~= set!["protocolVersion"@, "capabilities"@, "clientInfo"@]);
    assert(client.dom() =~= set!["name"@, "version"@]);
}

proof fn lemma_keys_differ()
    ensures
        "method"@ != "id"@,
        "method"@ != "params"@,
        "id"@ != "params"@,
        "protocolVersion"@ != "capabilities"@,
        "protocolVersion"@ != "clientInfo"@,
        "capabilities"@ != "clientInfo"@,
        "name"@ != "version"@,
{
    reveal_strlit("name");
    reveal_strlit("version");
    reveal_strlit("protocolVersion");
    reveal_strlit("capabilities");
    reveal_strlit("clientInfo");
    reveal_strlit("method");
    reveal_strlit("id");
    reveal_strlit("params");
    assert("name"@.len() < "version"@.len());
    assert("clientInfo"@.len() < "capabilities"@.len() < "protocolVersion"@.len());
    assert("id"@.len() < "params"@.len());
    assert("id"@.len() < "method"@.len());
    assert("method"@[0] != "params"@[0]);
}

/// The line of a message ends with a line feed, and what stands before that is
/// the message's compact text.
pub proof fn line_holds_the_message(message: Tree)
    ensures
        line_of(message).len() > 0,
        line_of(message).last() == 0x0A,
        decoded(line_of(message).drop_last()) == Some(compact(message)),
{
    decoding_undoes_encoding(encode_utf8(compact(message)), compact(message));
    assert(line_of(message).drop_last() =~= encode_utf8(compact(message)));
}

/// Whether a message is the answer to the request `id`: it carries that id.
pub open spec fn is_answer(message: Tree, id: int) -> bool {
    message matches Tree::Object(m) && m.dom().contains("id"@) && is_integer(m["id"@], id)
}

/// An answer brings its result, unless it has an error, which counts first, or
/// lacks both; whatever is no answer is passed over.
pub proof fn replies_are_judged_by_their_members(reply: Tree, error: Option<Seq<char>>, id: int)
    requires
        i64::MIN <= id <= i64::MAX,
    ensures
        reply_judgement(reply, error, id) is Skip <==> !is_answer(reply, id),
        is_answer(reply, id) && error is Some ==> reply_judgement(reply, error, id) == Judgement::Finished(
            Err(Failure::Rpc(error->Some_0)),
        ),
        is_answer(reply, id) && error is None && reply->Object_0.dom().contains("result"@) ==> reply_judgement(
            reply,
            error,
            id,
        ) == Judgement::Finished(Ok(reply->Object_0["result"@])),
        is_answer(reply, id) && error is None && !reply->Object_0.dom().contains("result"@) ==> reply_judgement(
            reply,
            error,
            id,
        ) == Judgement::Finished(Err(Failure::Rpc("response missing result"@))),
{
    if let Tree::Object(m) = reply {
        if m.dom().contains("id"@) {
            if let Tree::Number(Number::Unsigned(n)) = m["id"@] {
                if n <= i64::MAX {
                    assert(n as i64 == n);
                }
            }
        }
    }
}

/// The text of an error is the compact text of the member `error`.
pub proof fn errors_are_told_in_full(m: Map<Seq<char>, Tree>)
    ensures
        m.dom().contains("error"@) ==> error_text(Tree::Object(m)) == Some(compact(m["error"@])),
        !m.dom().contains("error"@) ==> error_text(Tree::Object(m)) is None,
{
}

/// What a line of the program means, whatever white space stands around it: a
/// blank one means nothing; one that is no JSON is an error; a message that is
/// not the answer is passed over; and the answer brings its error, its result,
/// or the lack of both.
pub proof fn lines_are_judged_by_their_messages(
    before: Seq<char>,
    text: Seq<char>,
    after: Seq<char>,
    line: Seq<u8>,
    id: int,
)
    requires
        is_blank(before),
        is_bare(text),
        is_blank(after),
        line == encode_utf8(before + text + after),
        i64::MIN <= id <= i64::MAX,
    ensures
        text.len() == 0 ==> bytes_judgement(line, id) is Skip,
        text.len() > 0 ==> match parsed(text) {
            Err(e) => bytes_judgement(line, id) == Judgement::Finished(Err(Failure::Rpc(e))),
            Ok(reply) => if !is_answer(reply, id) {
                bytes_judgement(line, id) is Skip
            } else {
                let m = reply->Object_0;
                bytes_judgement(line, id) == Judgement::Finished(
                    if m.dom().contains("error"@) {
                        Err(Failure::Rpc(compact(m["error"@])))
                    } else if m.dom().contains("result"@) {
                        Ok(m["result"@])
                    } else {
                        Err(Failure::Rpc("response missing result"@))
                    },
                )
            },
        },
{
    padding_is_trimmed(before, text, after);
    decoding_undoes_encoding(line, before + text + after);
    if text.len() > 0 {
        if let Ok(reply) = parsed(text) {
            replies_are_judged_by_their_members(reply, error_text(reply), id);
            if let Tree::Object(m) = reply {
                errors_are_told_in_full(m);
            }
        }
    }
}

/// Bytes that are no text's encoding are an error.
pub proof fn broken_lines_are_errors(line: Seq<u8>, id: int)
    requires
        forall|text: Seq<char>| #[trigger] encode_utf8(text) != line,
    ensures
        bytes_judgement(line, id) == Judgement::Finished(
            Err(Failure::Io("stream did not contain valid UTF-8"@)),
        ),
{
    if let Some(text) = decoded(line) {
        decoding_undoes_encoding(line, text);
    }
}

} // verus!
