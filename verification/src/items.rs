//! The conversation data model: response items streamed from the provider or
//! fed back to it, the append-only conversation history, and the pairing of
//! tool calls with their outputs.

use vstd::prelude::*;

verus! {

/// Where an item originated: the main loop or a named sub-agent.
#[derive(Debug, Clone, PartialEq, Eq)]
pub enum Origin {
    Main,
    SubAgent { name: String },
}

/// One piece of message content.
#[derive(Debug, Clone, PartialEq)]
pub enum ContentItem {
    InputText { text: String },
    InputImage { image_url: String },
    OutputText { text: String },
}

/// Payload of a function-call output: free text plus an optional boolean
/// outcome (set when one is meaningful).
#[derive(Debug, Clone, PartialEq)]
pub struct FunctionCallOutputPayload {
    pub content: String,
    pub success: Option<bool>,
}

/// The action of a local shell call.
#[derive(Debug, Clone, PartialEq)]
pub struct LocalShellExecAction {
    pub command: Vec<String>,
    pub working_directory: Option<String>,
    pub timeout_ms: Option<u64>,
}

/// An item of the conversation transcript.
#[derive(Debug, Clone, PartialEq)]
pub enum ResponseItem {
    Message { id: Option<String>, role: String, content: Vec<ContentItem>, origin: Option<Origin> },
    FunctionCall { id: Option<String>, name: String, arguments: String, call_id: String },
    FunctionCallOutput { call_id: String, output: FunctionCallOutputPayload, origin: Option<Origin> },
    LocalShellCall { id: Option<String>, call_id: Option<String>, action: LocalShellExecAction },
    CustomToolCall { id: Option<String>, call_id: String, name: String, input: String },
    CustomToolCallOutput { call_id: String, output: String, origin: Option<Origin> },
    Reasoning {
        id: Option<String>,
        summary: Vec<String>,
        content: Option<Vec<String>>,
        encrypted_content: Option<String>,
        origin: Option<Origin>,
    },
    WebSearchCall { call_id: String },
    SubAgentStart { name: String, description: String, origin: Option<Origin> },
    SubAgentEnd { name: String, success: bool, origin: Option<Origin> },
    Other,
}

/// Copy of a string vector, element for element.
pub fn clone_string_vec(v: &Vec<String>) -> (r: Vec<String>)
    ensures
        r@ == v@,
{
    let mut out: Vec<String> = Vec::new();
    let mut i: usize = 0;
    while i < v.len()
        invariant
            i <= v@.len(),
            out@ == v@.subrange(0, i as int),
        decreases v.len() - i,
    {
        out.push(v[i].clone());
        proof {
            assert(v@.subrange(0, i + 1) =~= v@.subrange(0, i as int).push(v@[i as int]));
        }
        i = i + 1;
    }
    proof {
        assert(v@.subrange(0, v@.len() as int) =~= v@);
    }
    out
}

/// Equality of string views, for comparing against literals.
pub fn string_is(s: &String, lit: &str) -> (r: bool)
    ensures
        r == (s@ == lit@),
{
    let other = String::from_str(lit);
    *s == other
}

/// The call id under which this item demands an output, if any.
pub open spec fn call_id_of_call(item: ResponseItem) -> Option<Seq<char>> {
    match item {
        ResponseItem::FunctionCall { call_id, .. } => Some(call_id@),
        ResponseItem::LocalShellCall { call_id: Some(call_id), .. } => Some(call_id@),
        ResponseItem::CustomToolCall { call_id, .. } => Some(call_id@),
        _ => None,
    }
}

/// The call id that this item answers, if any. A `LocalShellCall` with a
/// call id counts as answered by itself.
pub open spec fn output_call_id(item: ResponseItem) -> Option<Seq<char>> {
    match item {
        ResponseItem::FunctionCallOutput { call_id, .. } => Some(call_id@),
        ResponseItem::LocalShellCall { call_id: Some(call_id), .. } => Some(call_id@),
        ResponseItem::CustomToolCallOutput { call_id, .. } => Some(call_id@),
        _ => None,
    }
}

/// Some item of `items` answers call id `id`.
pub open spec fn has_output_for(items: Seq<ResponseItem>, id: Seq<char>) -> bool {
    exists|m: int| 0 <= m < items.len() && output_call_id(items[m]) == Some(id)
}

/// Call ids of `input[i..]` that demand an output and are answered nowhere
/// in `input`, in order, duplicates kept.
pub open spec fn missing_ids_from(input: Seq<ResponseItem>, i: int) -> Seq<Seq<char>>
    decreases input.len() - i,
{
    if i < 0 || i >= input.len() {
        Seq::empty()
    } else {
        let rest = missing_ids_from(input, i + 1);
        match call_id_of_call(input[i]) {
            Some(id) => if !has_output_for(input, id) {
                seq![id] + rest
            } else {
                rest
            },
            None => rest,
        }
    }
}

pub open spec fn missing_ids(input: Seq<ResponseItem>) -> Seq<Seq<char>> {
    missing_ids_from(input, 0)
}

/// The synthetic outputs for unanswered calls: one `"aborted"` custom-tool
/// output per missing call id, in call order.
pub open spec fn aborted_outputs_for(input: Seq<ResponseItem>, r: Seq<ResponseItem>) -> bool {
    &&& r.len() == missing_ids(input).len()
    &&& forall|j: int|
        0 <= j < r.len() ==> (#[trigger] r[j] matches ResponseItem::CustomToolCallOutput {
            call_id,
            output,
            origin,
        } && call_id@ == missing_ids(input)[j] && output@ == "aborted"@ && origin is None)
}

/// Does some item of `input` answer `id`? (Executable mirror of
/// `has_output_for`.)
fn has_output_for_exec(input: &Vec<ResponseItem>, id: &String) -> (r: bool)
    ensures
        r == has_output_for(input@, id@),
{
    let mut m: usize = 0;
    while m < input.len()
        invariant
            m <= input@.len(),
            forall|k: int| 0 <= k < m ==> output_call_id(input@[k]) != Some(id@),
        decreases input.len() - m,
    {
        let hit = match &input[m] {
            ResponseItem::FunctionCallOutput { call_id, .. } => string_is(id, call_id.as_str()),
            ResponseItem::LocalShellCall { call_id: Some(call_id), .. } => string_is(
                id,
                call_id.as_str(),
            ),
            ResponseItem::CustomToolCallOutput { call_id, .. } => string_is(id, call_id.as_str()),
            _ => false,
        };
        if hit {
            return true;
        }
        m = m + 1;
    }
    false
}

/// For each tool call in `input` that no item of `input` answers, produce a
/// synthetic `"aborted"` output, preserving call order. The turn engine
/// prepends these before the next provider request so the transcript stays
/// well formed after an interruption.
pub fn missing_call_outputs(input: &Vec<ResponseItem>) -> (r: Vec<ResponseItem>)
    ensures
        aborted_outputs_for(input@, r@),
{
    let mut out: Vec<ResponseItem> = Vec::new();
    let mut i: usize = 0;
    while i < input.len()
        invariant
            i <= input@.len(),
            missing_ids(input@) == out_ids(out@) + missing_ids_from(input@, i as int),
            aborted_prefix(out@),
        decreases input.len() - i,
    {
        let cid: Option<&String> = match &input[i] {
            ResponseItem::FunctionCall { call_id, .. } => Some(call_id),
            ResponseItem::LocalShellCall { call_id: Some(call_id), .. } => Some(call_id),
            ResponseItem::CustomToolCall { call_id, .. } => Some(call_id),
            _ => None,
        };
        if let Some(id) = cid {
            if !has_output_for_exec(input, id) {
                let ghost out0 = out@;
                out.push(ResponseItem::CustomToolCallOutput {
                    call_id: id.clone(),
                    output: String::from_str("aborted"),
                    origin: None,
                });
                proof {
                    assert(out_ids(out@) =~= out_ids(out0).push(id@)) by {
                        assert(out@.drop_last() =~= out0);
                        lemma_out_ids_push(out0, out@.last());
                    }
                    assert(out_ids(out0).push(id@) + missing_ids_from(input@, i + 1)
                        =~= out_ids(out0) + (seq![id@] + missing_ids_from(input@, i + 1)));
                }
            }
        }
        i = i + 1;
    }
    proof {
        assert(missing_ids_from(input@, input@.len() as int) =~= Seq::<Seq<char>>::empty());
        assert(out_ids(out@) + Seq::<Seq<char>>::empty() =~= out_ids(out@));
        lemma_aborted_prefix_is_outputs(input@, out@);
    }
    out
}

/// The call ids of a sequence of synthetic outputs.
pub open spec fn out_ids(r: Seq<ResponseItem>) -> Seq<Seq<char>>
    decreases r.len(),
{
    if r.len() == 0 {
        Seq::empty()
    } else {
        out_ids(r.drop_last()) + match r.last() {
            ResponseItem::CustomToolCallOutput { call_id, .. } => seq![call_id@],
            _ => Seq::<Seq<char>>::empty(),
        }
    }
}

/// Every item is an `"aborted"` custom-tool output without origin.
pub open spec fn aborted_prefix(r: Seq<ResponseItem>) -> bool {
    forall|j: int|
        0 <= j < r.len() ==> (#[trigger] r[j] matches ResponseItem::CustomToolCallOutput {
            output,
            origin,
            ..
        } && output@ == "aborted"@ && origin is None)
}

proof fn lemma_out_ids_push(r: Seq<ResponseItem>, item: ResponseItem)
    requires
        item matches ResponseItem::CustomToolCallOutput { .. },
    ensures
        out_ids(r.push(item)) == out_ids(r) + match item {
            ResponseItem::CustomToolCallOutput { call_id, .. } => seq![call_id@],
            _ => Seq::<Seq<char>>::empty(),
        },
{
    assert(r.push(item).drop_last() =~= r);
    assert(r.push(item).last() == item);
}

proof fn lemma_aborted_prefix_is_outputs(input: Seq<ResponseItem>, r: Seq<ResponseItem>)
    requires
        aborted_prefix(r),
        out_ids(r) == missing_ids(input),
    ensures
        aborted_outputs_for(input, r),
    decreases r.len(),
{
    lemma_out_ids_len(r);
    assert forall|j: int| 0 <= j < r.len() implies #[trigger] r[j]
        matches ResponseItem::CustomToolCallOutput { call_id, output, origin } && call_id@
        == missing_ids(input)[j] && output@ == "aborted"@ && origin is None by {
        lemma_out_ids_index(r, j);
    }
}

proof fn lemma_out_ids_len(r: Seq<ResponseItem>)
    requires
        aborted_prefix(r),
    ensures
        out_ids(r).len() == r.len(),
    decreases r.len(),
{
    if r.len() > 0 {
        assert(forall|j: int| 0 <= j < r.drop_last().len() ==> r.drop_last()[j] == r[j]);
        lemma_out_ids_len(r.drop_last());
    }
}

proof fn lemma_out_ids_index(r: Seq<ResponseItem>, j: int)
    requires
        aborted_prefix(r),
        0 <= j < r.len(),
    ensures
        out_ids(r).len() == r.len(),
        r[j] matches ResponseItem::CustomToolCallOutput { call_id, .. } && call_id@ == out_ids(
            r,
        )[j],
    decreases r.len(),
{
    lemma_out_ids_len(r);
    if j == r.len() - 1 {
        lemma_out_ids_len(r.drop_last());
        assert(forall|k: int| 0 <= k < r.drop_last().len() ==> r.drop_last()[k] == r[k]);
        lemma_out_ids_len(r.drop_last());
    } else {
        assert(forall|k: int| 0 <= k < r.drop_last().len() ==> r.drop_last()[k] == r[k]);
        lemma_out_ids_index(r.drop_last(), j);
    }
}

/// A call whose id is never answered within `input` appears in
/// `missing_ids_from(input, i)` for every `i` at or before it.
proof fn lemma_missing_ids_cover(input: Seq<ResponseItem>, i: int, k: int, id: Seq<char>)
    requires
        0 <= i <= k < input.len(),
        call_id_of_call(input[k]) == Some(id),
        !has_output_for(input, id),
    ensures
        missing_ids_from(input, i).contains(id),
    decreases input.len() - i,
{
    if i == k {
        assert(missing_ids_from(input, i)[0] == id);
    } else {
        lemma_missing_ids_cover(input, i + 1, k, id);
        let rest = missing_ids_from(input, i + 1);
        let w = choose|w: int| 0 <= w < rest.len() && rest[w] == id;
        match call_id_of_call(input[i]) {
            Some(other) => {
                if !has_output_for(input, other) {
                    assert(missing_ids_from(input, i)[w + 1] == id);
                } else {
                    assert(missing_ids_from(input, i)[w] == id);
                }
            },
            None => {
                assert(missing_ids_from(input, i)[w] == id);
            },
        }
    }
}

/// Call/output pairing: once the synthetic `"aborted"` outputs are prepended
/// to the turn input, every tool call in the combined transcript has a
/// matching output with the same call id somewhere in it.
pub proof fn lemma_call_output_pairing(input: Seq<ResponseItem>, aborted: Seq<ResponseItem>)
    requires
        aborted_outputs_for(input, aborted),
    ensures
        forall|k: int|
            0 <= k < (aborted + input).len() && call_id_of_call(
                #[trigger] (aborted + input)[k],
            ) is Some ==> has_output_for(
                aborted + input,
                call_id_of_call((aborted + input)[k])->Some_0,
            ),
{
    let combined = aborted + input;
    assert forall|k: int|
        0 <= k < combined.len() && call_id_of_call(#[trigger] combined[k])
            is Some implies has_output_for(combined, call_id_of_call(combined[k])->Some_0) by {
        let id = call_id_of_call(combined[k])->Some_0;
        if k < aborted.len() {
            // Synthetic outputs are not calls.
            assert(aborted[k] matches ResponseItem::CustomToolCallOutput { .. });
            assert(false);
        } else {
            let kk = k - aborted.len();
            assert(combined[k] == input[kk]);
            if has_output_for(input, id) {
                let m = choose|m: int|
                    0 <= m < input.len() && output_call_id(input[m]) == Some(id);
                assert(combined[m + aborted.len()] == input[m]);
                assert(output_call_id(combined[m + aborted.len()]) == Some(id));
            } else {
                lemma_missing_ids_cover(input, 0, kk, id);
                let w = choose|w: int|
                    0 <= w < missing_ids(input).len() && missing_ids(input)[w] == id;
                assert(aborted[w] matches ResponseItem::CustomToolCallOutput { call_id, .. }
                    && call_id@ == id);
                assert(combined[w] == aborted[w]);
                assert(output_call_id(combined[w]) == Some(id));
            }
        }
    }
}

/// The append-only conversation history of a session.
#[derive(Debug)]
pub struct ConversationHistory {
    items: Vec<ResponseItem>,
}

impl ConversationHistory {
    pub closed spec fn view(&self) -> Seq<ResponseItem> {
        self.items@
    }

    pub fn new() -> (r: ConversationHistory)
        ensures
            r@ == Seq::<ResponseItem>::empty(),
    {
        ConversationHistory { items: Vec::new() }
    }

    /// Append the given items in order; nothing already recorded changes.
    pub fn record_items(&mut self, items: Vec<ResponseItem>)
        ensures
            final(self)@ == old(self)@ + items@,
    {
        let mut moved = items;
        self.items.append(&mut moved);
    }

    /// The recorded items, in order.
    pub fn contents(&self) -> (r: &Vec<ResponseItem>)
        ensures
            r@ == self@,
    {
        &self.items
    }

    pub fn len(&self) -> (r: usize)
        ensures
            r == self@.len(),
    {
        self.items.len()
    }

    /// Truncate the history to its last `n` assistant messages, keeping
    /// their order. Used by the compact task.
    pub fn keep_last_messages(&mut self, n: usize)
        ensures
            final(self)@ == last_assistant_messages(old(self)@, n as int),
    {
        let mut kept_rev: Vec<ResponseItem> = Vec::new();
        proof {
            assert(kept_rev@.reverse() =~= Seq::<ResponseItem>::empty());
            assert(last_assistant_messages(old(self)@, n as int) + Seq::<ResponseItem>::empty()
                =~= last_assistant_messages(old(self)@, n as int));
        }
        while self.items.len() > 0 && kept_rev.len() < n
            invariant
                kept_rev@.len() <= n,
                last_assistant_messages(old(self)@, n as int) == last_assistant_messages(
                    self.items@,
                    n - kept_rev@.len(),
                ) + kept_rev@.reverse(),
            decreases self.items@.len(),
        {
            let ghost s0 = self.items@;
            let item = match self.items.pop() {
                Some(item) => item,
                None => {
                    proof {
                        assert(false);
                    }
                    ResponseItem::Other
                },
            };
            proof {
                assert(self.items@ =~= s0.drop_last());
                assert(item == s0.last());
            }
            let keep = match &item {
                ResponseItem::Message { role, .. } => string_is(role, "assistant"),
                _ => false,
            };
            if keep {
                let ghost kr0 = kept_rev@;
                kept_rev.push(item);
                proof {
                    assert(kept_rev@.reverse() =~= seq![s0.last()] + kr0.reverse());
                    assert(last_assistant_messages(s0, n - kr0.len()) == last_assistant_messages(
                        s0.drop_last(),
                        n - kr0.len() - 1,
                    ) + seq![s0.last()]);
                    assert(last_assistant_messages(s0.drop_last(), n - kept_rev@.len()) + (seq![
                        s0.last(),
                    ] + kr0.reverse()) =~= (last_assistant_messages(
                        s0.drop_last(),
                        n - kept_rev@.len(),
                    ) + seq![s0.last()]) + kr0.reverse());
                }
            }
        }
        proof {
            if kept_rev@.len() < n {
                assert(self.items@.len() == 0);
                assert(last_assistant_messages(self.items@, n - kept_rev@.len())
                    =~= Seq::<ResponseItem>::empty());
            } else {
                assert(last_assistant_messages(self.items@, 0) =~= Seq::<ResponseItem>::empty());
            }
            assert(Seq::<ResponseItem>::empty() + kept_rev@.reverse() =~= kept_rev@.reverse());
        }
        self.items.clear();
        let ghost kr = kept_rev@;
        while kept_rev.len() > 0
            invariant
                kept_rev@.len() <= kr.len(),
                kept_rev@ == kr.take(kept_rev@.len() as int),
                self.items@ == kr.reverse().take(kr.len() - kept_rev@.len()),
            decreases kept_rev@.len(),
        {
            let ghost k0 = kept_rev@;
            let item = match kept_rev.pop() {
                Some(item) => item,
                None => {
                    proof {
                        assert(false);
                    }
                    ResponseItem::Other
                },
            };
            self.items.push(item);
            proof {
                assert(kept_rev@ =~= k0.take(k0.len() - 1));
                assert forall|q: int| 0 <= q < k0.len() - 1 implies kept_rev@[q] == kr[q] by {
                    assert(kept_rev@[q] == k0[q]);
                    assert(k0[q] == kr.take(k0.len() as int)[q]);
                }
                assert(kept_rev@ =~= kr.take(kept_rev@.len() as int));
                assert(item == k0[k0.len() - 1]);
                assert(k0[k0.len() - 1] == kr.take(k0.len() as int)[k0.len() - 1]);
                assert(item == kr[k0.len() - 1]);
                assert(kr.reverse()[kr.len() - k0.len()] == kr[k0.len() - 1]);
                assert(self.items@ =~= kr.reverse().take(kr.len() - kept_rev@.len()));
            }
        }
        proof {
            assert(self.items@ =~= kr.reverse());
        }
    }
}

/// The last up-to-`n` assistant messages of `items`, in order.
pub open spec fn last_assistant_messages(items: Seq<ResponseItem>, n: int) -> Seq<ResponseItem>
    decreases items.len(),
{
    if n <= 0 || items.len() == 0 {
        Seq::empty()
    } else if items.last() matches ResponseItem::Message { role, .. } && role@ == "assistant"@ {
        last_assistant_messages(items.drop_last(), n - 1) + seq![items.last()]
    } else {
        last_assistant_messages(items.drop_last(), n)
    }
}

/// The last assistant message's final output text, if any.
pub open spec fn spec_last_assistant_text(items: Seq<ResponseItem>) -> Option<Seq<char>>
    decreases items.len(),
{
    if items.len() == 0 {
        None
    } else if items.last() matches ResponseItem::Message { role, content, .. } && role@
        == "assistant"@ && last_output_text(content@) is Some {
        match items.last() {
            ResponseItem::Message { content, .. } => last_output_text(content@),
            _ => None,
        }
    } else {
        spec_last_assistant_text(items.drop_last())
    }
}

/// The final `OutputText` of a content list, if any.
pub open spec fn last_output_text(content: Seq<ContentItem>) -> Option<Seq<char>>
    decreases content.len(),
{
    if content.len() == 0 {
        None
    } else if content.last() matches ContentItem::OutputText { text } {
        match content.last() {
            ContentItem::OutputText { text } => Some(text@),
            _ => None,
        }
    } else {
        last_output_text(content.drop_last())
    }
}

/// The text of the last assistant message in a turn's responses, searching
/// from the end; inside a message, the last output text wins.
#[verifier::loop_isolation(false)]
pub fn get_last_assistant_message_from_turn(responses: &Vec<ResponseItem>) -> (r: Option<String>)
    ensures
        match r {
            Some(s) => spec_last_assistant_text(responses@) == Some(s@),
            None => spec_last_assistant_text(responses@) is None,
        },
{
    let mut i: usize = responses.len();
    proof {
        assert(responses@.take(responses@.len() as int) =~= responses@);
    }
    while i > 0
        invariant
            i <= responses@.len(),
            spec_last_assistant_text(responses@) == spec_last_assistant_text(
                responses@.take(i as int),
            ),
        decreases i,
    {
        i = i - 1;
        proof {
            assert(responses@.take(i + 1).drop_last() =~= responses@.take(i as int));
            assert(responses@.take(i + 1).last() == responses@[i as int]);
        }
        if let ResponseItem::Message { role, content, .. } = &responses[i] {
            if string_is(role, "assistant") {
                let mut j: usize = content.len();
                proof {
                    assert(content@.take(content@.len() as int) =~= content@);
                }
                while j > 0
                    invariant
                        j <= content@.len(),
                        last_output_text(content@) == last_output_text(content@.take(j as int)),
                    decreases j,
                {
                    j = j - 1;
                    proof {
                        assert(content@.take(j + 1).drop_last() =~= content@.take(j as int));
                        assert(content@.take(j + 1).last() == content@[j as int]);
                    }
                    if let ContentItem::OutputText { text } = &content[j] {
                        proof {
                            assert(content@.take(j + 1).last() matches ContentItem::OutputText {
                                ..
                            });
                            assert(last_output_text(content@.take(j + 1)) == Some(text@));
                            assert(last_output_text(content@) == Some(text@));
                            assert(responses@[i as int] matches ResponseItem::Message {
                                role: r2,
                                content: c2,
                                ..
                            } && r2 == *role && c2 == *content);
                            assert(responses@.take(i + 1).last()
                                matches ResponseItem::Message { role: r2, content: c2, .. }
                                && r2@ == "assistant"@ && last_output_text(c2@) == Some(text@));
                            assert(spec_last_assistant_text(responses@.take(i + 1)) == Some(
                                text@,
                            ));
                        }
                        return Some(text.clone());
                    }
                }
                proof {
                    assert(content@.take(0) =~= Seq::<ContentItem>::empty());
                }
            }
        }
    }
    proof {
        assert(responses@.take(0) =~= Seq::<ResponseItem>::empty());
    }
    None
}

} // verus!
