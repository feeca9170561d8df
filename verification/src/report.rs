//! The text of a report.
//!
//! A line is made in three parts, so that the word that names an outcome can
//! be set off on a terminal: what stands before the word, the word, and what
//! stands after it.
use crate::decimal::{decimal_text, u64_text};
use crate::manifest::{Notice, NoticeView};
use crate::reconcile::{Outcome, OutcomeView, Record, RecordView};
use vstd::prelude::*;
use vstd::string::StringExecFns;

verus! {

/// The words that name what an audit found.
#[derive(Clone, Copy, Debug, PartialEq, Eq)]
pub enum Tag {
    Okay,
    ChangedSize,
    Moved,
    Changed,
    New,
    Missing,
    Duplicate,
}

/// The word as it is written.
pub open spec fn tag_label(tag: Tag) -> Seq<char> {
    match tag {
        Tag::Okay => "OK"@,
        Tag::ChangedSize => "CHANGED SIZE"@,
        Tag::Moved => "MOVED"@,
        Tag::Changed => "CHANGED"@,
        Tag::New => "NEW"@,
        Tag::Missing => "MISSING"@,
        Tag::Duplicate => "DUPLICATE"@,
    }
}

impl Tag {
    /// The word as it is written.
    pub fn label(self) -> (word: &'static str)
        ensures
            word@ == tag_label(self),
    {
        match self {
            Tag::Okay => "OK",
            Tag::ChangedSize => "CHANGED SIZE",
            Tag::Moved => "MOVED",
            Tag::Changed => "CHANGED",
            Tag::New => "NEW",
            Tag::Missing => "MISSING",
            Tag::Duplicate => "DUPLICATE",
        }
    }
}

/// One line of text in three parts.
#[derive(Debug, Clone, PartialEq, Eq)]
pub struct Line {
    pub before: String,
    pub tag: Option<Tag>,
    pub after: String,
}

/// The mathematical value of a [`Line`].
pub ghost struct LineView {
    pub before: Seq<char>,
    pub tag: Option<Tag>,
    pub after: Seq<char>,
}

impl View for Line {
    type V = LineView;

    open spec fn view(&self) -> LineView {
        LineView { before: self.before@, tag: self.tag, after: self.after@ }
    }
}

impl LineView {
    /// The whole line.
    pub open spec fn text(self) -> Seq<char> {
        self.before + match self.tag {
            Some(tag) => tag_label(tag),
            None => Seq::empty(),
        } + self.after
    }
}

impl Line {
    /// The whole line, with the word as it is written.
    pub fn text(&self) -> (text: String)
        ensures
            text@ == self@.text(),
    {
        let mut text = self.before.clone();
        match self.tag {
            Some(tag) => {
                text.append(tag.label());
            },
            None => {
                assert(text@ =~= text@ + Seq::<char>::empty());
            },
        }
        text.append(self.after.as_str());
        text
    }
}

/// The word for an outcome.
pub open spec fn outcome_tag(outcome: OutcomeView) -> Tag {
    match outcome {
        OutcomeView::Unchanged => Tag::Okay,
        OutcomeView::SizeChanged { .. } => Tag::ChangedSize,
        OutcomeView::Moved { .. } => Tag::Moved,
        OutcomeView::ContentChanged { .. } => Tag::Changed,
        OutcomeView::New { .. } => Tag::New,
        OutcomeView::Missing { .. } => Tag::Missing,
    }
}

/// What joins hash and path in the line of an outcome: an arrow where both
/// are as recorded, two spaces otherwise.
pub open spec fn outcome_joint(outcome: OutcomeView) -> Seq<char> {
    match outcome {
        OutcomeView::Unchanged => " -> "@,
        OutcomeView::SizeChanged { .. } => " -> "@,
        _ => "  "@,
    }
}

/// What follows the word in the line of an outcome, up to the bracket that
/// closes the line.
pub open spec fn outcome_detail(outcome: OutcomeView) -> Seq<char> {
    match outcome {
        OutcomeView::Unchanged => Seq::empty(),
        OutcomeView::SizeChanged { old_size, new_size } => " from "@ + decimal_text(
            old_size as nat,
        ) + " to "@ + decimal_text(new_size as nat),
        OutcomeView::Moved { old_path } => " from "@ + old_path,
        OutcomeView::ContentChanged { old_hash } => " hash from "@ + old_hash,
        OutcomeView::New { size } => " in filesystem with size "@ + decimal_text(size as nat),
        OutcomeView::Missing { expected_size } => match expected_size {
            Some(size) => " in filesystem with expected size "@ + decimal_text(size as nat),
            None => " in filesystem"@,
        },
    }
}

/// The line of a record. A listing is the hash, two spaces and the path, or
/// in the three-field form size, hash and canonical path between commas. An
/// outcome is hash and path, then in brackets the word and its detail.
pub open spec fn render_spec(record: RecordView) -> LineView {
    match record {
        RecordView::Plain { hash, path } => LineView {
            before: hash + "  "@ + path,
            tag: None,
            after: Seq::empty(),
        },
        RecordView::Compat { size, hash, canonical_path } => LineView {
            before: decimal_text(size as nat) + ","@ + hash + ","@ + canonical_path,
            tag: None,
            after: Seq::empty(),
        },
        RecordView::Audit { hash, path, outcome } => LineView {
            before: hash + outcome_joint(outcome) + path + "  ("@,
            tag: Some(outcome_tag(outcome)),
            after: outcome_detail(outcome) + ")"@,
        },
    }
}

fn tag_of(outcome: &Outcome) -> (tag: Tag)
    ensures
        tag == outcome_tag(outcome@),
{
    match outcome {
        Outcome::Unchanged => Tag::Okay,
        Outcome::SizeChanged { .. } => Tag::ChangedSize,
        Outcome::Moved { .. } => Tag::Moved,
        Outcome::ContentChanged { .. } => Tag::Changed,
        Outcome::New { .. } => Tag::New,
        Outcome::Missing { .. } => Tag::Missing,
    }
}

fn joint_of(outcome: &Outcome) -> (joint: &'static str)
    ensures
        joint@ == outcome_joint(outcome@),
{
    match outcome {
        Outcome::Unchanged => " -> ",
        Outcome::SizeChanged { .. } => " -> ",
        _ => "  ",
    }
}

fn detail_of(outcome: &Outcome) -> (detail: String)
    ensures
        detail@ == outcome_detail(outcome@),
{
    match outcome {
        Outcome::Unchanged => String::new(),
        Outcome::SizeChanged { old_size, new_size } => {
            let mut detail = String::from_str(" from ");
            detail.append(u64_text(*old_size).as_str());
            detail.append(" to ");
            detail.append(u64_text(*new_size).as_str());
            detail
        },
        Outcome::Moved { old_path } => {
            let mut detail = String::from_str(" from ");
            detail.append(old_path.as_str());
            detail
        },
        Outcome::ContentChanged { old_hash } => {
            let mut detail = String::from_str(" hash from ");
            detail.append(old_hash.as_str());
            detail
        },
        Outcome::New { size } => {
            let mut detail = String::from_str(" in filesystem with size ");
            detail.append(u64_text(*size).as_str());
            detail
        },
        Outcome::Missing { expected_size } => match expected_size {
            Some(size) => {
                let mut detail = String::from_str(" in filesystem with expected size ");
                detail.append(u64_text(*size).as_str());
                detail
            },
            None => String::from_str(" in filesystem"),
        },
    }
}

/// Writes the line of a record.
pub fn render(record: &Record) -> (line: Line)
    ensures
        line@ == render_spec(record@),
{
    match record {
        Record::Plain { hash, path } => {
            let mut before = hash.clone();
            before.append("  ");
            before.append(path.as_str());
            Line { before, tag: None, after: String::new() }
        },
        Record::Compat { size, hash, canonical_path } => {
            let mut before = u64_text(*size);
            before.append(",");
            before.append(hash.as_str());
            before.append(",");
            before.append(canonical_path.as_str());
            Line { before, tag: None, after: String::new() }
        },
        Record::Audit { hash, path, outcome } => {
            let mut before = hash.clone();
            before.append(joint_of(outcome));
            before.append(path.as_str());
            before.append("  (");
            let mut after = detail_of(outcome);
            after.append(")");
            Line { before, tag: Some(tag_of(outcome)), after }
        },
    }
}

/// The line of a notice.
pub open spec fn render_notice_spec(notice: NoticeView) -> LineView {
    match notice {
        NoticeView::Unparsable { text, .. } => LineView {
            before: "Failed to parse line "@ + text,
            tag: None,
            after: Seq::empty(),
        },
        NoticeView::BadSize { size_text, .. } => LineView {
            before: "Cannot parse "@ + size_text + " into usize, setting to 0"@,
            tag: None,
            after: Seq::empty(),
        },
        NoticeView::Duplicate { hash, path, prior_path, .. } => LineView {
            before: hash + "  "@ + path + "  ("@,
            tag: Some(Tag::Duplicate),
            after: " hash with "@ + prior_path + ")"@,
        },
    }
}

/// Writes the line of a notice.
pub fn render_notice(notice: &Notice) -> (line: Line)
    ensures
        line@ == render_notice_spec(notice@),
{
    match notice {
        Notice::Unparsable { text, .. } => {
            let mut before = String::from_str("Failed to parse line ");
            before.append(text.as_str());
            Line { before, tag: None, after: String::new() }
        },
        Notice::BadSize { size_text, .. } => {
            let mut before = String::from_str("Cannot parse ");
            before.append(size_text.as_str());
            before.append(" into usize, setting to 0");
            Line { before, tag: None, after: String::new() }
        },
        Notice::Duplicate { hash, path, prior_path, .. } => {
            let mut before = hash.clone();
            before.append("  ");
            before.append(path.as_str());
            before.append("  (");
            let mut after = String::from_str(" hash with ");
            after.append(prior_path.as_str());
            after.append(")");
            Line { before, tag: Some(Tag::Duplicate), after }
        },
    }
}

} // verus!
