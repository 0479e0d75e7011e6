//! Building the outgoing request body: one JSON document holding the
//! model name, the streaming flag, the output-token cap and the ordered
//! message list — the conversation history with the prompt appended as the
//! final user turn. String values are escaped exactly as the spec
//! functions say.
use vstd::prelude::*;

use crate::llm::Message;
use crate::llm::MessageView;
use vstd::utf8::encode_utf8;

verus! {

/// The JSON escape of one byte of a string value: quote and backslash get
/// a backslash; newline, carriage return and tab get their short escapes;
/// any other control byte gets its `\u00..` form; everything else stands
/// as itself.
pub open spec fn spec_escape_byte(b: u8) -> Seq<u8> {
    if b == 34 {
        seq![92u8, 34u8]
    } else if b == 92 {
        seq![92u8, 92u8]
    } else if b == 10 {
        seq![92u8, 110u8]
    } else if b == 13 {
        seq![92u8, 114u8]
    } else if b == 9 {
        seq![92u8, 116u8]
    } else if b < 32 {
        seq![92u8, 117u8, 48u8, 48u8, spec_hex_digit(b as int / 16), spec_hex_digit(b as int % 16)]
    } else {
        seq![b]
    }
}

/// The lower-case hex digit of a value below 16.
pub open spec fn spec_hex_digit(n: int) -> u8 {
    if n < 10 {
        (48 + n) as u8
    } else {
        (87 + n) as u8
    }
}

/// A whole string value, escaped byte for byte.
pub open spec fn spec_escaped(s: Seq<u8>) -> Seq<u8>
    decreases s.len(),
{
    if s.len() == 0 {
        Seq::empty()
    } else {
        spec_escaped(s.drop_last()) + spec_escape_byte(s.last())
    }
}

/// The opening of the body, up to the model value: `{\"model\":\"`.
pub open spec fn lit_head() -> Seq<u8> {
    seq![123u8, 34u8, 109u8, 111u8, 100u8, 101u8, 108u8, 34u8, 58u8, 34u8]
}

/// From the model value to the message list: `\",\"stream\":true,\"max_tokens\":3000,\"messages\":[`.
pub open spec fn lit_cont() -> Seq<u8> {
    seq![34u8, 44u8, 34u8, 115u8, 116u8, 114u8, 101u8, 97u8, 109u8, 34u8, 58u8, 116u8, 114u8, 117u8, 101u8, 44u8, 34u8, 109u8, 97u8, 120u8, 95u8, 116u8, 111u8, 107u8, 101u8, 110u8, 115u8, 34u8, 58u8, 51u8, 48u8, 48u8, 48u8, 44u8, 34u8, 109u8, 101u8, 115u8, 115u8, 97u8, 103u8, 101u8, 115u8, 34u8, 58u8, 91u8]
}

/// The close of the body: `]}`.
pub open spec fn lit_tail() -> Seq<u8> {
    seq![93u8, 125u8]
}

/// The opening of one message object: `{\"role\":\"`.
pub open spec fn lit_obj_role() -> Seq<u8> {
    seq![123u8, 34u8, 114u8, 111u8, 108u8, 101u8, 34u8, 58u8, 34u8]
}

/// Between the role and the content of one message object: `\",\"content\":\"`.
pub open spec fn lit_obj_mid() -> Seq<u8> {
    seq![34u8, 44u8, 34u8, 99u8, 111u8, 110u8, 116u8, 101u8, 110u8, 116u8, 34u8, 58u8, 34u8]
}

/// The close of one message object: `\"}`.
pub open spec fn lit_obj_end() -> Seq<u8> {
    seq![34u8, 125u8]
}

/// The role name of the appended prompt turn: `user`.
pub open spec fn spec_user_role() -> Seq<u8> {
    seq![117u8, 115u8, 101u8, 114u8]
}

/// One message object of the list: role and content, escaped.
pub open spec fn spec_msg_obj(role: Seq<u8>, content: Seq<u8>) -> Seq<u8> {
    lit_obj_role() + spec_escaped(role) + lit_obj_mid() + spec_escaped(content) + lit_obj_end()
}

/// The message list joined with commas.
pub open spec fn spec_msgs_list(ms: Seq<(Seq<u8>, Seq<u8>)>) -> Seq<u8>
    decreases ms.len(),
{
    if ms.len() == 0 {
        Seq::empty()
    } else if ms.len() == 1 {
        spec_msg_obj(ms[0].0, ms[0].1)
    } else {
        spec_msgs_list(ms.drop_last()) + seq![44u8] + spec_msg_obj(ms.last().0, ms.last().1)
    }
}

/// The whole request body over the UTF-8 bytes of the model name and of
/// each message's role and content.
pub open spec fn spec_request_body(model: Seq<u8>, ms: Seq<(Seq<u8>, Seq<u8>)>) -> Seq<u8> {
    lit_head() + spec_escaped(model) + lit_cont() + spec_msgs_list(ms) + lit_tail()
}

/// The UTF-8 byte pair of each turn: its role and its content.
pub open spec fn spec_pairs_of(ms: Seq<MessageView>) -> Seq<(Seq<u8>, Seq<u8>)> {
    ms.map_values(
        |m: MessageView| (encode_utf8(m.role->Some_0), encode_utf8(m.content->Some_0)),
    )
}

/// The views of a sequence of messages.
pub open spec fn view_messages(ms: Seq<Message>) -> Seq<MessageView> {
    ms.map_values(|m: Message| m@)
}

/// Append the escape of one byte.
fn push_escape_byte(out: &mut Vec<u8>, b: u8)
    ensures
        final(out)@ == old(out)@ + spec_escape_byte(b),
{
    if b == 34 {
        out.push(92);
        out.push(34);
    } else if b == 92 {
        out.push(92);
        out.push(92);
    } else if b == 10 {
        out.push(92);
        out.push(110);
    } else if b == 13 {
        out.push(92);
        out.push(114);
    } else if b == 9 {
        out.push(92);
        out.push(116);
    } else if b < 32 {
        out.push(92);
        out.push(117);
        out.push(48);
        out.push(48);
        let hi = b / 16;
        let lo = b % 16;
        out.push(if hi < 10 { 48 + hi } else { 87 + hi });
        out.push(if lo < 10 { 48 + lo } else { 87 + lo });
    } else {
        out.push(b);
    }
    proof {
        assert(out@ =~= old(out)@ + spec_escape_byte(b));
    }
}

/// Append the escape of a whole string value.
fn push_escaped(out: &mut Vec<u8>, s: &[u8])
    ensures
        final(out)@ == old(out)@ + spec_escaped(s@),
{
    let n = s.len();
    let mut i: usize = 0;
    proof {
        assert(spec_escaped(s@.take(0)) =~= Seq::<u8>::empty());
        assert(out@ + Seq::<u8>::empty() =~= out@);
    }
    while i < n
        invariant
            i <= n,
            n == s@.len(),
            out@ == old(out)@ + spec_escaped(s@.take(i as int)),
        decreases n - i,
    {
        push_escape_byte(out, s[i]);
        proof {
            assert(s@.take(i as int + 1).drop_last() =~= s@.take(i as int));
            assert(s@.take(i as int + 1).last() == s@[i as int]);
            assert(old(out)@ + spec_escaped(s@.take(i as int)) + spec_escape_byte(s@[i as int])
                =~= old(out)@ + spec_escaped(s@.take(i as int + 1)));
        }
        i = i + 1;
    }
    proof {
        assert(s@.take(n as int) =~= s@);
    }
}

/// Append one message object.
fn push_msg_obj(out: &mut Vec<u8>, role: &[u8], content: &[u8])
    ensures
        final(out)@ == old(out)@ + spec_msg_obj(role@, content@),
{
    out.push(123);
    out.push(34);
    out.push(114);
    out.push(111);
    out.push(108);
    out.push(101);
    out.push(34);
    out.push(58);
    out.push(34);
    push_escaped(out, role);
    out.push(34);
    out.push(44);
    out.push(34);
    out.push(99);
    out.push(111);
    out.push(110);
    out.push(116);
    out.push(101);
    out.push(110);
    out.push(116);
    out.push(34);
    out.push(58);
    out.push(34);
    push_escaped(out, content);
    out.push(34);
    out.push(125);
    proof {
        assert(out@ =~= old(out)@ + spec_msg_obj(role@, content@));
    }
}

/// Build the request body: the prompt appended to the history as the
/// final user turn, every string escaped, the shape exactly as
/// `spec_request_body` says. Every history turn must carry both a role
/// and a content.
#[verifier::rlimit(60)]
pub fn build_request_body(model: &str, history: &Vec<Message>, prompt: &str) -> (r: Vec<u8>)
    requires
        forall|i: int|
            0 <= i < history@.len() ==> (#[trigger] history@[i])@.role is Some
                && history@[i]@.content is Some,
    ensures
        r@ == spec_request_body(
            encode_utf8(model@),
            spec_pairs_of(view_messages(history@)).push(
                (spec_user_role(), encode_utf8(prompt@)),
            ),
        ),
{
    let ghost pairs = spec_pairs_of(view_messages(history@));
    let mut out: Vec<u8> = Vec::new();
    push_lit_head(&mut out);
    push_escaped(&mut out, model.as_bytes());
    push_lit_cont(&mut out);
    let ghost base = out@;
    proof {
        assert(base =~= lit_head() + spec_escaped(encode_utf8(model@)) + lit_cont());
    }
    let n = history.len();
    let mut i: usize = 0;
    proof {
        assert(out@ =~= base + spec_msgs_prefix(pairs, 0));
    }
    while i < n
        invariant
            i <= n,
            n == history@.len(),
            pairs == spec_pairs_of(view_messages(history@)),
            pairs.len() == n,
            forall|j: int|
                0 <= j < history@.len() ==> (#[trigger] history@[j])@.role is Some
                    && history@[j]@.content is Some,
            out@ == base + spec_msgs_prefix(pairs, i as int),
        decreases n - i,
    {
        let m = &history[i];
        let role = m.role.as_ref().unwrap().as_str();
        let content = m.content.as_ref().unwrap().as_str();
        proof {
            assert(role@ == history@[i as int]@.role->Some_0);
            assert(content@ == history@[i as int]@.content->Some_0);
            assert(pairs[i as int] == (
                encode_utf8(history@[i as int]@.role->Some_0),
                encode_utf8(history@[i as int]@.content->Some_0),
            ));
        }
        let ghost pre = out@;
        push_msg_obj(&mut out, role.as_bytes(), content.as_bytes());
        out.push(44);
        proof {
            lemma_msgs_prefix_step(pairs, i as int);
            assert(out@ =~= pre + spec_msg_obj(pairs[i as int].0, pairs[i as int].1) + seq![
                44u8,
            ]);
            assert(out@ =~= base + spec_msgs_prefix(pairs, i as int + 1));
        }
        i = i + 1;
    }
    let user_role = user_role_bytes();
    push_msg_obj(&mut out, user_role.as_slice(), prompt.as_bytes());
    out.push(93);
    out.push(125);
    proof {
        let all = pairs.push((spec_user_role(), encode_utf8(prompt@)));
        assert(all.drop_last() =~= pairs);
        assert(all.last() == (spec_user_role(), encode_utf8(prompt@)));
        if n == 0 {
            assert(all.len() == 1);
            assert(spec_msgs_list(all) == spec_msg_obj(spec_user_role(), encode_utf8(prompt@)));
        } else {
            assert(pairs.take(n as int) =~= pairs);
            assert(spec_msgs_list(all) == spec_msgs_list(pairs) + seq![44u8] + spec_msg_obj(
                spec_user_role(),
                encode_utf8(prompt@),
            ));
        }
        assert(out@ =~= spec_request_body(encode_utf8(model@), all));
    }
    out
}

/// The message list written so far: the first `k` turns, each followed by
/// its separating comma (another turn always follows).
pub open spec fn spec_msgs_prefix(ps: Seq<(Seq<u8>, Seq<u8>)>, k: int) -> Seq<u8> {
    if k <= 0 {
        Seq::empty()
    } else {
        spec_msgs_list(ps.take(k)) + seq![44u8]
    }
}

/// One more turn and its comma extend the written prefix.
proof fn lemma_msgs_prefix_step(ps: Seq<(Seq<u8>, Seq<u8>)>, i: int)
    requires
        0 <= i < ps.len(),
    ensures
        spec_msgs_prefix(ps, i) + spec_msg_obj(ps[i].0, ps[i].1) + seq![44u8]
            == spec_msgs_prefix(ps, i + 1),
{
    if i == 0 {
        assert(ps.take(1).len() == 1);
        assert(ps.take(1)[0] == ps[0]);
        assert(spec_msgs_list(ps.take(1)) == spec_msg_obj(ps[0].0, ps[0].1));
        assert(spec_msgs_prefix(ps, 0) + spec_msg_obj(ps[0].0, ps[0].1) + seq![44u8]
            =~= spec_msgs_list(ps.take(1)) + seq![44u8]);
    } else {
        assert(ps.take(i + 1).drop_last() =~= ps.take(i));
        assert(ps.take(i + 1).last() == ps[i]);
        assert(spec_msgs_list(ps.take(i + 1)) == spec_msgs_list(ps.take(i)) + seq![44u8]
            + spec_msg_obj(ps[i].0, ps[i].1));
        assert(spec_msgs_prefix(ps, i) + spec_msg_obj(ps[i].0, ps[i].1) + seq![44u8]
            =~= spec_msgs_list(ps.take(i + 1)) + seq![44u8]);
    }
}

/// Append the opening of the body.
fn push_lit_head(out: &mut Vec<u8>)
    ensures
        final(out)@ == old(out)@ + lit_head(),
{
    out.push(123);
    out.push(34);
    out.push(109);
    out.push(111);
    out.push(100);
    out.push(101);
    out.push(108);
    out.push(34);
    out.push(58);
    out.push(34);
    proof {
        assert(out@ =~= old(out)@ + lit_head());
    }
}

/// Append the middle of the body, from the model value to the message
/// list.
fn push_lit_cont(out: &mut Vec<u8>)
    ensures
        final(out)@ == old(out)@ + lit_cont(),
{
    out.push(34);
    out.push(44);
    out.push(34);
    out.push(115);
    out.push(116);
    out.push(114);
    out.push(101);
    out.push(97);
    out.push(109);
    out.push(34);
    out.push(58);
    out.push(116);
    out.push(114);
    out.push(117);
    out.push(101);
    out.push(44);
    out.push(34);
    out.push(109);
    out.push(97);
    out.push(120);
    out.push(95);
    out.push(116);
    out.push(111);
    out.push(107);
    out.push(101);
    out.push(110);
    out.push(115);
    out.push(34);
    out.push(58);
    out.push(51);
    out.push(48);
    out.push(48);
    out.push(48);
    out.push(44);
    out.push(34);
    out.push(109);
    out.push(101);
    out.push(115);
    out.push(115);
    out.push(97);
    out.push(103);
    out.push(101);
    out.push(115);
    out.push(34);
    out.push(58);
    out.push(91);
    proof {
        assert(out@ =~= old(out)@ + lit_cont());
    }
}

/// The bytes of the role name `user`, as a vector.
fn user_role_bytes() -> (r: Vec<u8>)
    ensures
        r@ == spec_user_role(),
{
    let mut r: Vec<u8> = Vec::new();
    r.push(117);
    r.push(115);
    r.push(101);
    r.push(114);
    proof {
        assert(r@ =~= spec_user_role());
    }
    r
}

} // verus!
