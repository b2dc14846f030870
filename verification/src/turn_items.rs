//! Items of a model response.
use vstd::prelude::*;
use vstd::string::*;

verus! {

broadcast use vstd::string::group_string_axioms;

/// A piece of message content.
pub enum ContentItem {
    OutputText { text: String },
}

/// An item of a model response.
pub enum ResponseItem {
    Message { id: Option<String>, role: String, content: Vec<ContentItem> },
}

/// `item` is the assistant message `msg-1` whose only content is the
/// output text `text`.
pub open spec fn is_assistant_output_text(item: ResponseItem, text: Seq<char>) -> bool {
    match item {
        ResponseItem::Message { id, role, content } => {
            &&& (id matches Some(i) && i@ == "msg-1"@)
            &&& role@ == "assistant"@
            &&& content@.len() == 1
            &&& (content@[0] matches ContentItem::OutputText { text: t } && t@ == text)
        },
    }
}

/// An assistant message `msg-1` holding `text` as its only output text.
pub fn assistant_output_text(text: &str) -> (r: ResponseItem)
    ensures
        is_assistant_output_text(r, text@),
{
    let content = vec![ContentItem::OutputText { text: text.to_string() }];
    ResponseItem::Message { id: Some("msg-1".to_string()), role: "assistant".to_string(), content }
}

} // verus!
