//! Edit analysis: turns an edit into a request for a reusable instruction, and the
//! model's reply into a learned instruction. The request itself is made by the caller.

use vstd::prelude::*;
use crate::store::LearnedInstruction;
use crate::text::{
    byte_len, byte_len_chars, char_offset, char_offset_of, chars_of, chars_of_string, copy_range,
    is_boundary, push_all, push_str, same_chars, string_of, to_uppercase, trim, trim_chars,
    uppercase, lemma_boundary_prefix,
};
use crate::time::now;

verus! {

/// `s` cut to its first `max` bytes (unchanged when not longer).
pub open spec fn cut(s: Seq<char>, max: nat) -> Seq<char> {
    if byte_len(s) <= max {
        s
    } else {
        s.subrange(0, char_offset(s, max as int) as int)
    }
}

/// A cut keeps a text that fits, and otherwise keeps exactly the leading characters that
/// take up `max` bytes.
pub proof fn lemma_cut_is_prefix(s: Seq<char>, max: nat)
    requires
        byte_len(s) <= max || is_boundary(s, max as int),
    ensures
        byte_len(s) <= max ==> cut(s, max) == s,
        byte_len(s) > max ==> exists|k: int|
            {
                &&& 0 <= k <= s.len()
                &&& byte_len(#[trigger] s.subrange(0, k)) == max
                &&& cut(s, max) == s.subrange(0, k)
            },
{
    if byte_len(s) > max {
        lemma_boundary_prefix(s, max as int);
        let k = char_offset(s, max as int) as int;
        assert(byte_len(s.subrange(0, k)) == max);
    }
}

/// `s` cut to its first `max` bytes. The cut must fall between characters.
pub fn truncate(s: &str, max: usize) -> (res: String)
    requires
        byte_len(s@) <= max || is_boundary(s@, max as int),
    ensures
        res@ == cut(s@, max as nat),
{
    let c = chars_of(s);
    let n = byte_len_chars(c.as_slice());
    if n <= max as u128 {
        return s.to_owned();
    }
    let k = char_offset_of(c.as_slice(), max);
    let out = copy_range(c.as_slice(), 0, k);
    string_of(out.as_slice())
}

/// The system prompt of the analysis request.
pub open spec fn analysis_system_prompt() -> Seq<char> {
    "You are a writing preference analyst. Extract one clear instruction from how a user edited AI output."@
}

/// The system prompt of the analysis request.
pub fn system_prompt() -> (res: String)
    ensures
        res@ == analysis_system_prompt(),
{
    "You are a writing preference analyst. Extract one clear instruction from how a user edited AI output.".to_owned()
}

/// The request that asks the model for one instruction describing the edit.
pub open spec fn analysis_request(original: Seq<char>, edited: Seq<char>) -> Seq<char> {
    "AI OUTPUT:\n"@ + cut(original, 300) + "\n\nUSER'S EDITED VERSION:\n"@ + cut(edited, 300)
        + "\n\nCompare these two texts. What specific change did the user make?\nWrite ONE short instruction (max 15 words) that captures this preference.\nExamples: \"Never start replies with I think\", \"Keep under 2 sentences\", \"Don't use em-dashes\", \"Be more direct, less hedging\"\n\nIf the change is trivial (typo fix, minor rewording), respond with: SKIP\n\nRespond with ONLY the instruction or SKIP. No explanation."@
}

/// The request for analysing an edit, or `None` when the edit changes nothing but
/// surrounding whitespace (then no instruction is learned and no model is asked).
pub fn analysis_prompt(original: &str, edited: &str) -> (res: Option<String>)
    requires
        trim(original@) != trim(edited@) ==> (byte_len(original@) <= 300 || is_boundary(original@, 300)),
        trim(original@) != trim(edited@) ==> (byte_len(edited@) <= 300 || is_boundary(edited@, 300)),
    ensures
        trim(original@) == trim(edited@) ==> res is None,
        trim(original@) != trim(edited@) ==> (res matches Some(p) && p@ == analysis_request(original@, edited@)),
{
    let o = chars_of(original);
    let e = chars_of(edited);
    let to = trim_chars(o.as_slice());
    let te = trim_chars(e.as_slice());
    if same_chars(to.as_slice(), te.as_slice()) {
        return None;
    }
    let mut p = chars_of("AI OUTPUT:\n");
    let a = truncate(original, 300);
    let ac = chars_of_string(&a);
    push_all(&mut p, ac.as_slice());
    push_str(&mut p, "\n\nUSER'S EDITED VERSION:\n");
    let b = truncate(edited, 300);
    let bc = chars_of_string(&b);
    push_all(&mut p, bc.as_slice());
    push_str(
        &mut p,
        "\n\nCompare these two texts. What specific change did the user make?\nWrite ONE short instruction (max 15 words) that captures this preference.\nExamples: \"Never start replies with I think\", \"Keep under 2 sentences\", \"Don't use em-dashes\", \"Be more direct, less hedging\"\n\nIf the change is trivial (typo fix, minor rewording), respond with: SKIP\n\nRespond with ONLY the instruction or SKIP. No explanation.",
    );
    Some(string_of(p.as_slice()))
}

/// A reply is kept as an instruction unless, trimmed, it is empty, says SKIP (in any
/// case, as uppercased by `upper`), or is shorter than 5 or longer than 200 bytes.
pub open spec fn keeps_reply(reply: Seq<char>, upper: Seq<char>) -> bool {
    let t = trim(reply);
    !(t.len() == 0 || upper == "SKIP"@ || byte_len(t) < 5 || byte_len(t) > 200)
}

/// Whether a reply is kept, given the uppercase form of its trimmed text.
pub fn reply_is_kept(reply: &str, trimmed_upper: &[char]) -> (b: bool)
    ensures
        b == keeps_reply(reply@, trimmed_upper@),
{
    let r = chars_of(reply);
    let t = trim_chars(r.as_slice());
    let skip = chars_of("SKIP");
    let n = byte_len_chars(t.as_slice());
    !(t.len() == 0 || same_chars(trimmed_upper, skip.as_slice()) || n < 5 || n > 200)
}

/// The instruction learned from the model's reply, if any: the trimmed reply, counted
/// once and stamped with the current time.
pub fn instruction_from_response(response: &str) -> (res: Option<LearnedInstruction>)
    ensures
        res is Some == keeps_reply(response@, uppercase(trim(response@))),
        res matches Some(i) ==> i.text@ == trim(response@) && i.source_count == 1,
{
    let r = chars_of(response);
    let t = trim_chars(r.as_slice());
    let ts = string_of(t.as_slice());
    let upper = to_uppercase(ts.as_str());
    let uc = chars_of_string(&upper);
    if !reply_is_kept(response, uc.as_slice()) {
        return None;
    }
    Some(LearnedInstruction { text: ts, source_count: 1, added: now() })
}

} // verus!
