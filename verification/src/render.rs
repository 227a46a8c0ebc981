//! What is printed.
use owo_colors::OwoColorize;
use vstd::prelude::*;

use crate::digest;
use crate::digest::{
    CommentModel, Digest, DigestComment, DigestModel, DigestPost, PostModel,
};
use crate::error;
use crate::error::{ErrorModel, RdtError};
use crate::json;
use crate::json::{Json, JsonModel};
use crate::model;
use crate::model::{ItemKind, ItemModel, RedditItem, ThreadModel, ThreadView};
use crate::number;
use crate::store;
use crate::store::{ReportModel, SyncStreamReport};
use crate::text;

verus! {

// ---------------------------------------------------------------------------
// Pieces
// ---------------------------------------------------------------------------

/// A text on one line, of which no more than `max` characters are shown.
pub open spec fn shortened(input: Seq<char>, max: nat) -> Seq<char> {
    let line = text::replace_char(input, '\n', ' ');
    if line.len() <= max {
        line
    } else {
        line.take(
            if max >= 3 {
                max - 3
            } else {
                0
            },
        ) + "..."@
    }
}

/// Puts a text on one line and shows no more than `max` characters of it.
pub fn trim_for_terminal(input: &str, max: usize) -> (r: String)
    ensures
        r@ == shortened(input@, max as nat),
{
    let line = text::replaced(&text::chars_of(input), '\n', ' ');
    if line.len() <= max {
        return text::string_of(&line);
    }
    let keep: usize = max.saturating_sub(3);
    let front = &line[0..keep];
    assert(front@ =~= line@.take(keep as int));
    let mut out = text::string_of(front);
    out.push_str("...");
    out
}

/// Puts a text of a digest on one line and shows no more than `max` characters
/// of it.
pub fn trim_for_digest(input: &str, max: usize) -> (r: String)
    ensures
        r@ == shortened(input@, max as nat),
{
    trim_for_terminal(input, max)
}

/// A shortened text is one line and no longer than it may be, where there is
/// room for the dots.
pub proof fn law_shortened_text_fits(input: Seq<char>, max: nat)
    requires
        max >= 3,
    ensures
        shortened(input, max).len() <= max,
        text::free_of(shortened(input, max), '\n'),
        input.len() <= max ==> shortened(input, max) == text::replace_char(input, '\n', ' '),
{
    reveal_strlit("...");
    let line = text::replace_char(input, '\n', ' ');
    let s = shortened(input, max);
    assert forall|i: int| 0 <= i < s.len() implies #[trigger] s[i] != '\n' by {
        if line.len() <= max {
            assert(s[i] == line[i]);
        } else if i < max - 3 {
            assert(s[i] == line[i]);
        }
    }
}

/// The word for a kind of item.
pub open spec fn kind_word(kind: ItemKind) -> Seq<char> {
    match kind {
        ItemKind::Post => "post"@,
        ItemKind::Comment => "comment"@,
        ItemKind::Subreddit => "sub"@,
        ItemKind::User => "user"@,
        ItemKind::More => "more"@,
        ItemKind::Unknown => "item"@,
    }
}

/// The word for a kind of item.
pub fn kind_label(kind: &ItemKind) -> (r: &'static str)
    ensures
        r@ == kind_word(*kind),
{
    match kind {
        ItemKind::Post => "post",
        ItemKind::Comment => "comment",
        ItemKind::Subreddit => "sub",
        ItemKind::User => "user",
        ItemKind::More => "more",
        ItemKind::Unknown => "item",
    }
}

/// A colour of the terminal.
#[derive(Debug, Clone, Copy, PartialEq, Eq, Structural)]
pub enum Colour {
    Blue,
    Grey,
    Green,
    Yellow,
}

/// A text in a colour: between the code of the colour and the code of the
/// default one.
pub open spec fn coloured(input: Seq<char>, colour: Colour) -> Seq<char> {
    (match colour {
        Colour::Blue => "\u{1b}[34m"@,
        Colour::Grey => "\u{1b}[90m"@,
        Colour::Green => "\u{1b}[32m"@,
        Colour::Yellow => "\u{1b}[33m"@,
    }) + input + "\u{1b}[39m"@
}

/// Calls `owo_colors::OwoColorize::blue`, which writes the text between the
/// code of blue and the code of the default colour.
#[verifier::external_body]
fn in_blue(input: &str) -> (r: String)
    ensures
        r@ == coloured(input@, Colour::Blue),
{
    format!("{}", input.blue())
}

/// Calls `owo_colors::OwoColorize::bright_black`, which writes the text between
/// the code of grey and the code of the default colour.
#[verifier::external_body]
fn in_grey(input: &str) -> (r: String)
    ensures
        r@ == coloured(input@, Colour::Grey),
{
    format!("{}", input.bright_black())
}

/// Calls `owo_colors::OwoColorize::green`, which writes the text between the
/// code of green and the code of the default colour.
#[verifier::external_body]
fn in_green(input: &str) -> (r: String)
    ensures
        r@ == coloured(input@, Colour::Green),
{
    format!("{}", input.green())
}

/// Calls `owo_colors::OwoColorize::yellow`, which writes the text between the
/// code of yellow and the code of the default colour.
#[verifier::external_body]
fn in_yellow(input: &str) -> (r: String)
    ensures
        r@ == coloured(input@, Colour::Yellow),
{
    format!("{}", input.yellow())
}

/// A text in a colour, unless colours are off.
pub open spec fn painted(input: Seq<char>, colour: Colour, no_color: bool) -> Seq<char> {
    if no_color {
        input
    } else {
        coloured(input, colour)
    }
}

/// Puts a text in a colour, unless colours are off.
pub fn paint(input: String, colour: Colour, no_color: bool) -> (r: String)
    ensures
        r@ == painted(input@, colour, no_color),
{
    if no_color {
        return input;
    }
    match colour {
        Colour::Blue => in_blue(input.as_str()),
        Colour::Grey => in_grey(input.as_str()),
        Colour::Green => in_green(input.as_str()),
        Colour::Yellow => in_yellow(input.as_str()),
    }
}

// ---------------------------------------------------------------------------
// Items
// ---------------------------------------------------------------------------

/// Two spaces for each level of depth.
pub open spec fn indentation(depth: nat) -> Seq<char>
    decreases depth,
{
    if depth == 0 {
        Seq::empty()
    } else {
        indentation((depth - 1) as nat) + "  "@
    }
}

/// A text with something in front, where there is one.
pub open spec fn prefixed(prefix: Seq<char>, input: Option<Seq<char>>) -> Seq<char> {
    match input {
        Some(s) => prefix + s,
        None => Seq::empty(),
    }
}

/// The number of an item, or a dash.
pub open spec fn index_words(index: Option<usize>) -> Seq<char> {
    match index {
        Some(n) => number::decimal(n as nat),
        None => "-"@,
    }
}

/// The score of an item, where it is known.
pub open spec fn score_words(score: Option<i64>) -> Seq<char> {
    match score {
        Some(n) => " "@ + number::signed(n as int) + " pts"@,
        None => Seq::empty(),
    }
}

/// The lines of an item: its number, kind, subreddit, author, score and title,
/// and its permalink.
pub open spec fn item_words(item: ItemModel, no_color: bool) -> Seq<char> {
    let indent = indentation(item.depth as nat);
    let head = indent + painted(index_words(item.index), Colour::Blue, no_color) + ". "@
        + painted("["@ + kind_word(item.kind) + "]"@, Colour::Grey, no_color) + painted(
        prefixed(" r/"@, item.subreddit),
        Colour::Green,
        no_color,
    ) + painted(prefixed(" u/"@, item.author), Colour::Yellow, no_color) + painted(
        score_words(item.score),
        Colour::Grey,
        no_color,
    ) + " "@ + shortened(item.display_title(), 180) + "\n"@;
    match item.canonical_permalink() {
        Some(link) => head + indent + "   "@ + link + "\n"@,
        None => head,
    }
}

fn indent_text(depth: usize) -> (r: String)
    ensures
        r@ == indentation(depth as nat),
{
    let mut out = String::new();
    let mut i: usize = 0;
    assert(out@ =~= indentation(0));
    while i < depth
        invariant
            i <= depth,
            out@ == indentation(i as nat),
        decreases depth - i,
    {
        out.push_str("  ");
        i = i + 1;
    }
    out
}

fn with_prefix(prefix: &str, input: &Option<String>) -> (r: String)
    ensures
        r@ == prefixed(prefix@, text::opt(*input)),
{
    match input {
        Some(s) => {
            let mut out = prefix.to_owned();
            out.push_str(s.as_str());
            out
        },
        None => {
            let out = String::new();
            assert(out@ =~= Seq::empty());
            out
        },
    }
}

fn score_text(score: Option<i64>) -> (r: String)
    ensures
        r@ == score_words(score),
{
    match score {
        Some(n) => {
            let mut out = " ".to_owned();
            out.push_str(number::i64_text(n).as_str());
            out.push_str(" pts");
            out
        },
        None => {
            let out = String::new();
            assert(out@ =~= Seq::empty());
            out
        },
    }
}

/// The lines of an item.
pub fn item_text(item: &RedditItem, no_color: bool) -> (r: String)
    ensures
        r@ == item_words(item@, no_color),
{
    let index = match item.index {
        Some(n) => number::usize_text(n),
        None => "-".to_owned(),
    };
    let indent = indent_text(item.depth);
    let mut kind = "[".to_owned();
    kind.push_str(kind_label(&item.kind));
    kind.push_str("]");
    let subreddit = with_prefix(" r/", &item.subreddit);
    let author = with_prefix(" u/", &item.author);
    let score = score_text(item.score);
    let title = trim_for_terminal(item.display_title(), 180);
    let mut out = indent.clone();
    out.push_str(paint(index, Colour::Blue, no_color).as_str());
    out.push_str(". ");
    out.push_str(paint(kind, Colour::Grey, no_color).as_str());
    out.push_str(paint(subreddit, Colour::Green, no_color).as_str());
    out.push_str(paint(author, Colour::Yellow, no_color).as_str());
    out.push_str(paint(score, Colour::Grey, no_color).as_str());
    out.push_str(" ");
    out.push_str(title.as_str());
    out.push_str("\n");
    match item.canonical_permalink() {
        Some(link) => {
            out.push_str(indent.as_str());
            out.push_str("   ");
            out.push_str(link.as_str());
            out.push_str("\n");
        },
        None => {},
    }
    out
}

/// The lines of some items.
pub open spec fn items_words(items: Seq<ItemModel>, no_color: bool) -> Seq<char>
    decreases items.len(),
{
    if items.len() == 0 {
        Seq::empty()
    } else {
        items_words(items.drop_last(), no_color) + item_words(items.last(), no_color)
    }
}

/// The lines of some items.
pub fn items_text(items: &Vec<RedditItem>, no_color: bool) -> (r: String)
    ensures
        r@ == items_words(model::items_model(items@), no_color),
{
    let ghost all = model::items_model(items@);
    let mut out = String::new();
    let mut i: usize = 0;
    assert(all.take(0) =~= Seq::empty());
    assert(out@ =~= Seq::empty());
    while i < items.len()
        invariant
            i <= items@.len(),
            all == model::items_model(items@),
            out@ == items_words(all.take(i as int), no_color),
        decreases items@.len() - i,
    {
        proof {
            let t = all.take(i + 1);
            assert(t.drop_last() =~= all.take(i as int));
            assert(t.last() == items@[i as int]@);
        }
        out.push_str(item_text(&items[i], no_color).as_str());
        i = i + 1;
    }
    assert(all.take(all.len() as int) =~= all);
    out
}

// ---------------------------------------------------------------------------
// Threads
// ---------------------------------------------------------------------------

/// A thread in print: a note before it, the thread, and a note after it.
#[derive(Debug)]
pub struct ThreadText {
    pub note: Option<String>,
    pub body: String,
    pub warning: Option<String>,
}

/// The post of a thread and an empty line, and then the comments.
pub open spec fn thread_body(thread: ThreadModel, no_color: bool) -> Seq<char> {
    (match thread.post {
        Some(post) => item_words(post, no_color) + "\n"@,
        None => Seq::empty(),
    }) + items_words(thread.comments, no_color)
}

/// The note before a thread in print.
pub open spec fn thread_note(thread: ThreadModel) -> Option<Seq<char>> {
    match thread.notice {
        Some(notice) => Some("note: "@ + notice + "\n"@),
        None => None,
    }
}

/// The note after a thread in print.
pub open spec fn thread_warning(thread: ThreadModel) -> Option<Seq<char>> {
    if thread.more_stubs > 0 && thread.notice is None {
        Some(
            "thread truncated: "@ + number::decimal(thread.more_stubs as nat)
                + " hidden comment stub(s) not expanded\n"@,
        )
    } else {
        None
    }
}

/// A notice is shown as it is, and hidden comments are never passed over: where
/// there are any, a note tells of them.
pub proof fn law_hidden_comments_are_mentioned(thread: ThreadModel)
    ensures
        thread.notice matches Some(notice) ==> thread_note(thread) == Some(
            "note: "@ + notice + "\n"@,
        ) && thread_warning(thread) is None,
        thread.notice is None ==> thread_note(thread) is None,
        thread.notice is None ==> (thread_warning(thread) is Some <==> thread.more_stubs > 0),
        thread_warning(thread) matches Some(words) ==> words == "thread truncated: "@
            + number::decimal(thread.more_stubs as nat)
            + " hidden comment stub(s) not expanded\n"@,
        thread.more_stubs > 0 ==> thread_note(thread) is Some || thread_warning(thread) is Some,
{
}

/// A thread in print. Hidden comments are mentioned where no notice does so.
pub fn thread_text(thread: &ThreadView, no_color: bool) -> (r: ThreadText)
    ensures
        text::opt(r.note) == match thread@.notice {
            Some(notice) => Some("note: "@ + notice + "\n"@),
            None => None,
        },
        r.body@ == thread_body(thread@, no_color),
        text::opt(r.warning) == if thread@.more_stubs > 0 && thread@.notice is None {
            Some(
                "thread truncated: "@ + number::decimal(thread@.more_stubs as nat)
                    + " hidden comment stub(s) not expanded\n"@,
            )
        } else {
            None
        },
        text::opt(r.note) == thread_note(thread@),
        text::opt(r.warning) == thread_warning(thread@),
{
    let note = match &thread.notice {
        Some(notice) => {
            let mut out = "note: ".to_owned();
            out.push_str(notice.as_str());
            out.push_str("\n");
            Some(out)
        },
        None => None,
    };
    let mut body = String::new();
    match &thread.post {
        Some(post) => {
            body = item_text(post, no_color);
            body.push_str("\n");
        },
        None => {
            assert(body@ =~= Seq::empty());
        },
    }
    body.push_str(items_text(&thread.comments, no_color).as_str());
    let warning = if thread.more_stubs > 0 && thread.notice.is_none() {
        let mut out = "thread truncated: ".to_owned();
        out.push_str(number::usize_text(thread.more_stubs).as_str());
        out.push_str(" hidden comment stub(s) not expanded\n");
        Some(out)
    } else {
        None
    };
    ThreadText { note, body, warning }
}

// ---------------------------------------------------------------------------
// Reports
// ---------------------------------------------------------------------------

/// The lines of a report.
pub open spec fn report_words(report: ReportModel) -> Seq<char> {
    let head = "r/"@ + report.subreddit + " "@ + report.kind.word() + ": "@ + number::decimal(
        report.new_items as nat,
    ) + " new, "@ + number::decimal(report.updated_items as nat) + " updated, "@
        + number::decimal(report.http_requests as nat) + " request(s), "@ + report.status;
    let first = match report.remaining_items {
        Some(n) => head + ", "@ + number::decimal(n as nat) + " remaining"@ + "\n"@,
        None => head + "\n"@,
    };
    match report.notice {
        Some(notice) => first + "  "@ + notice + "\n"@,
        None => first,
    }
}

/// The lines of some reports.
pub open spec fn reports_words(reports: Seq<ReportModel>) -> Seq<char>
    decreases reports.len(),
{
    if reports.len() == 0 {
        Seq::empty()
    } else {
        reports_words(reports.drop_last()) + report_words(reports.last())
    }
}

/// The lines of a report.
pub fn report_text(report: &SyncStreamReport) -> (r: String)
    ensures
        r@ == report_words(report@),
{
    let mut out = "r/".to_owned();
    out.push_str(report.subreddit.as_str());
    out.push_str(" ");
    out.push_str(report.kind.as_str());
    out.push_str(": ");
    out.push_str(number::usize_text(report.new_items).as_str());
    out.push_str(" new, ");
    out.push_str(number::usize_text(report.updated_items).as_str());
    out.push_str(" updated, ");
    out.push_str(number::usize_text(report.http_requests).as_str());
    out.push_str(" request(s), ");
    out.push_str(report.status.as_str());
    match report.remaining_items {
        Some(n) => {
            out.push_str(", ");
            out.push_str(number::usize_text(n).as_str());
            out.push_str(" remaining");
        },
        None => {},
    }
    out.push_str("\n");
    match &report.notice {
        Some(notice) => {
            out.push_str("  ");
            out.push_str(notice.as_str());
            out.push_str("\n");
        },
        None => {},
    }
    out
}

/// The lines of some reports.
pub fn reports_text(reports: &Vec<SyncStreamReport>) -> (r: String)
    ensures
        r@ == reports_words(store::reports_model(reports@)),
{
    let ghost all = store::reports_model(reports@);
    let mut out = String::new();
    let mut i: usize = 0;
    assert(all.take(0) =~= Seq::empty());
    assert(out@ =~= Seq::empty());
    while i < reports.len()
        invariant
            i <= reports@.len(),
            all == store::reports_model(reports@),
            out@ == reports_words(all.take(i as int)),
        decreases reports@.len() - i,
    {
        proof {
            let t = all.take(i + 1);
            assert(t.drop_last() =~= all.take(i as int));
            assert(t.last() == reports@[i as int]@);
        }
        out.push_str(report_text(&reports[i]).as_str());
        i = i + 1;
    }
    assert(all.take(all.len() as int) =~= all);
    out
}

// ---------------------------------------------------------------------------
// Rows
// ---------------------------------------------------------------------------

/// The text in which `serde_json` writes a document on one line, if it can.
pub uninterp spec fn one_line(value: JsonModel) -> Option<Seq<char>>;

/// Calls `serde_json::to_string`. The text depends on the document alone.
#[verifier::external_body]
fn write_line(value: &serde_json::Value) -> (r: Option<String>)
    ensures
        text::opt(r) == one_line(json::value_model(*value)),
{
    serde_json::to_string(value).ok()
}

/// The text in which `serde_json` writes a document on several lines, or the
/// words in which it refuses to.
pub uninterp spec fn several_lines(value: JsonModel) -> Result<Seq<char>, Seq<char>>;

/// Calls `serde_json::to_string_pretty` and writes its error with `to_string`.
/// The text, or the words of the error, depend on the document alone.
#[verifier::external_body]
fn write_lines(value: &serde_json::Value) -> (r: Result<String, String>)
    ensures
        match r {
            Ok(lines) => several_lines(json::value_model(*value)) == Ok::<_, Seq<char>>(lines@),
            Err(words) => several_lines(json::value_model(*value)) == Err::<Seq<char>, _>(words@),
        },
{
    serde_json::to_string_pretty(value).map_err(|e| e.to_string())
}

/// A document in print, where there is one.
pub open spec fn document_lines(document: Result<JsonModel, ErrorModel>) -> Result<
    Seq<char>,
    ErrorModel,
> {
    match document {
        Ok(value) => match several_lines(value) {
            Ok(lines) => Ok(lines),
            Err(words) => Err(ErrorModel::Message(words)),
        },
        Err(e) => Err(e),
    }
}

/// The document in an answer, in print.
pub fn document_text(body: &str) -> (r: Result<String, RdtError>)
    ensures
        error::outcome(r) == document_lines(json::document(json::decoded(body@))),
{
    match json::parse_value(body) {
        Ok(value) => match write_lines(&value) {
            Ok(lines) => Ok(lines),
            Err(words) => Err(RdtError::Message(words)),
        },
        Err(e) => Err(e),
    }
}

/// A value of a row in print, given the text of a list or an object.
pub open spec fn value_words(value: JsonModel, line: Option<Seq<char>>) -> Seq<char> {
    match value {
        JsonModel::Null => Seq::empty(),
        JsonModel::Bool(true) => "true"@,
        JsonModel::Bool(false) => "false"@,
        JsonModel::Number(n) => n.text,
        JsonModel::Text(s) => s,
        _ => match line {
            Some(s) => s,
            None => Seq::empty(),
        },
    }
}

/// A value of a row in print, given the text of a list or an object.
pub fn value_text(value: &Json, line: Option<String>) -> (r: String)
    ensures
        r@ == value_words(value@, text::opt(line)),
{
    match value {
        Json::Null => {
            let out = String::new();
            assert(out@ =~= Seq::empty());
            out
        },
        Json::Bool(flag) => if *flag {
            "true".to_owned()
        } else {
            "false".to_owned()
        },
        Json::Number(n) => n.text.clone(),
        Json::Text(s) => s.clone(),
        _ => match line {
            Some(s) => s,
            None => {
                let out = String::new();
                assert(out@ =~= Seq::empty());
                out
            },
        },
    }
}

/// A value of a row in print.
pub fn value_to_text(value: serde_json::Value) -> (r: String)
    ensures
        r@ == value_words(json::value_model(value), one_line(json::value_model(value))),
{
    let line = write_line(&value);
    value_text(&json::convert(value), line)
}

/// What a row holds: the name and the value of each column.
pub open spec fn row_model(row: Seq<(String, serde_json::Value)>) -> Seq<
    (Seq<char>, JsonModel),
> {
    Seq::new(row.len(), |i: int| (row[i].0@, json::value_model(row[i].1)))
}

/// What rows hold.
pub open spec fn rows_model(rows: Seq<Vec<(String, serde_json::Value)>>) -> Seq<
    Seq<(Seq<char>, JsonModel)>,
> {
    Seq::new(rows.len(), |i: int| row_model(rows[i]@))
}

/// The lines of a row.
pub open spec fn row_words(row: Seq<(Seq<char>, JsonModel)>) -> Seq<char>
    decreases row.len(),
{
    if row.len() == 0 {
        Seq::empty()
    } else {
        row_words(row.drop_last()) + "  "@ + row.last().0 + ": "@ + value_words(
            row.last().1,
            one_line(row.last().1),
        ) + "\n"@
    }
}

/// The lines of some rows, each under its number.
pub open spec fn numbered_rows(rows: Seq<Seq<(Seq<char>, JsonModel)>>) -> Seq<char>
    decreases rows.len(),
{
    if rows.len() == 0 {
        Seq::empty()
    } else {
        numbered_rows(rows.drop_last()) + "["@ + number::decimal(rows.len()) + "]\n"@ + row_words(
            rows.last(),
        )
    }
}

/// The lines of some rows, or that there are none.
pub open spec fn rows_words(rows: Seq<Seq<(Seq<char>, JsonModel)>>) -> Seq<char> {
    if rows.len() == 0 {
        "(no rows)\n"@
    } else {
        numbered_rows(rows)
    }
}

fn row_text(row: Vec<(String, serde_json::Value)>) -> (r: String)
    ensures
        r@ == row_words(row_model(row@)),
{
    let ghost all = row_model(row@);
    let mut out = String::new();
    assert(all.take(0) =~= Seq::empty());
    assert(out@ =~= Seq::empty());
    for cell in it: row
        invariant
            it.seq() == row@,
            all == row_model(row@),
            out@ == row_words(all.take(it.index())),
    {
        proof {
            let t = all.take(it.index() + 1);
            assert(t.drop_last() =~= all.take(it.index()));
            assert(t.last() == (cell.0@, json::value_model(cell.1)));
        }
        let (key, value) = cell;
        out.push_str("  ");
        out.push_str(key.as_str());
        out.push_str(": ");
        out.push_str(value_to_text(value).as_str());
        out.push_str("\n");
    }
    assert(all.take(all.len() as int) =~= all);
    out
}

/// The lines of some rows.
pub fn rows_text(rows: Vec<Vec<(String, serde_json::Value)>>) -> (r: String)
    ensures
        r@ == rows_words(rows_model(rows@)),
{
    if rows.len() == 0 {
        return "(no rows)\n".to_owned();
    }
    let ghost all = rows_model(rows@);
    let mut out = String::new();
    let mut n: u64 = 0;
    assert(all.take(0) =~= Seq::empty());
    assert(out@ =~= Seq::empty());
    let total: usize = rows.len();
    for row in it: rows
        invariant
            it.seq() == rows@,
            all == rows_model(rows@),
            total == rows@.len(),
            n == it.index(),
            out@ == numbered_rows(all.take(it.index())),
    {
        proof {
            let t = all.take(it.index() + 1);
            assert(t.drop_last() =~= all.take(it.index()));
            assert(t.last() == row_model(row@));
            assert(it.index() < total);
        }
        n = n + 1;
        out.push_str("[");
        out.push_str(number::u64_text(n).as_str());
        out.push_str("]\n");
        out.push_str(row_text(row).as_str());
    }
    assert(all.take(all.len() as int) =~= all);
    out
}

// ---------------------------------------------------------------------------
// Digests
// ---------------------------------------------------------------------------

/// A text, or another where there is none.
pub open spec fn text_or(input: Option<Seq<char>>, other: Seq<char>) -> Seq<char> {
    match input {
        Some(s) => s,
        None => other,
    }
}

/// A number, or a question mark where there is none.
pub open spec fn number_or_mark(n: Option<i64>) -> Seq<char> {
    match n {
        Some(k) => number::signed(k as int),
        None => "?"@,
    }
}

fn or_text<'a>(input: &'a Option<String>, other: &'a str) -> (r: &'a str)
    ensures
        r@ == text_or(text::opt(*input), other@),
{
    match input {
        Some(s) => s.as_str(),
        None => other,
    }
}

fn or_mark(n: Option<i64>) -> (r: String)
    ensures
        r@ == number_or_mark(n),
{
    match n {
        Some(k) => number::i64_text(k),
        None => "?".to_owned(),
    }
}

/// A text with the lines of a comment after it.
pub open spec fn with_comment_words(out: Seq<char>, comment: CommentModel) -> Seq<char> {
    let line = out + "- u/"@ + text_or(comment.author, "[unknown]"@) + " - "@ + number_or_mark(
        comment.score,
    ) + " pts - "@ + number_or_mark(comment.created_utc) + ": "@ + shortened(
        text_or(comment.body, "(empty)"@),
        500,
    ) + "\n"@;
    match comment.permalink {
        Some(link) => line + "  "@ + link + "\n"@,
        None => line,
    }
}

/// A text with the lines of some comments after it.
pub open spec fn with_comments_words(out: Seq<char>, comments: Seq<CommentModel>) -> Seq<char>
    decreases comments.len(),
{
    if comments.len() == 0 {
        out
    } else {
        with_comment_words(with_comments_words(out, comments.drop_last()), comments.last())
    }
}

/// A text with the heading of a post after it.
pub open spec fn with_heading_words(out: Seq<char>, post: PostModel) -> Seq<char> {
    let head = out + "\n## "@ + (match post.subreddit {
        Some(name) => "r/"@ + name,
        None => "unknown subreddit"@,
    }) + ": "@ + shortened(text_or(post.title, "(untitled)"@), 180) + "\n"@;
    let linked = match post.permalink {
        Some(link) => head + "- Post: "@ + link + "\n"@,
        None => head,
    };
    linked + "- u/"@ + text_or(post.author, "[unknown]"@) + " - "@ + number_or_mark(post.score)
        + " pts - "@ + number_or_mark(post.num_comments) + " comments - activity "@
        + number::signed(post.activity_utc as int) + "\n"@
}

/// A text with the section of a post after it.
pub open spec fn with_post_words(out: Seq<char>, post: PostModel) -> Seq<char> {
    let head = with_heading_words(out, post);
    if post.comments.len() == 0 {
        head + "\nNo new comments captured for this post.\n"@
    } else {
        with_comments_words(head + "\nTop new comments:\n"@, post.comments)
    }
}

/// A text with the sections of some posts after it.
pub open spec fn with_posts_words(out: Seq<char>, posts: Seq<PostModel>) -> Seq<char>
    decreases posts.len(),
{
    if posts.len() == 0 {
        out
    } else {
        with_post_words(with_posts_words(out, posts.drop_last()), posts.last())
    }
}

/// What stands at the head of a digest.
pub open spec fn digest_head(digest: DigestModel) -> Seq<char> {
    let times = "# rdt digest\n\n"@ + "- Since: "@ + number::signed(digest.since_utc as int)
        + "\n"@ + "- Generated: "@ + number::signed(digest.generated_utc as int) + "\n"@;
    let place = match digest.subreddit {
        Some(name) => times + "- Subreddit: r/"@ + name + "\n"@,
        None => times,
    };
    place + "- Activity: "@ + number::decimal(digest.posts.len()) + " post group(s), "@
        + number::decimal(digest.comment_count() as nat) + " new comment(s)\n"@
}

/// A digest as Markdown.
pub open spec fn digest_words(digest: DigestModel) -> Seq<char> {
    let head = digest_head(digest);
    if digest.posts.len() == 0 && digest.orphan_comments.len() == 0 {
        head + "\nNo local activity matched.\n"@
    } else {
        let posts = with_posts_words(head, digest.posts);
        if digest.orphan_comments.len() == 0 {
            posts
        } else {
            with_comments_words(
                posts + "\n## Comments without local posts\n"@,
                digest.orphan_comments,
            )
        }
    }
}

/// Appends the lines of a comment.
pub fn append_digest_comment(out: &mut String, comment: &DigestComment)
    ensures
        final(out)@ == with_comment_words(old(out)@, comment@),
{
    out.push_str("- u/");
    out.push_str(or_text(&comment.author, "[unknown]"));
    out.push_str(" - ");
    out.push_str(or_mark(comment.score).as_str());
    out.push_str(" pts - ");
    out.push_str(or_mark(comment.created_utc).as_str());
    out.push_str(": ");
    out.push_str(trim_for_digest(or_text(&comment.body, "(empty)"), 500).as_str());
    out.push_str("\n");
    match &comment.permalink {
        Some(link) => {
            out.push_str("  ");
            out.push_str(link.as_str());
            out.push_str("\n");
        },
        None => {},
    }
}

fn append_digest_comments(out: &mut String, comments: &Vec<DigestComment>)
    ensures
        final(out)@ == with_comments_words(old(out)@, digest::comments_model(comments@)),
{
    let ghost was = out@;
    let ghost all = digest::comments_model(comments@);
    let mut i: usize = 0;
    assert(all.take(0) =~= Seq::empty());
    while i < comments.len()
        invariant
            i <= comments@.len(),
            all == digest::comments_model(comments@),
            out@ == with_comments_words(was, all.take(i as int)),
        decreases comments@.len() - i,
    {
        proof {
            let t = all.take(i + 1);
            assert(t.drop_last() =~= all.take(i as int));
            assert(t.last() == comments@[i as int]@);
        }
        append_digest_comment(out, &comments[i]);
        i = i + 1;
    }
    assert(all.take(all.len() as int) =~= all);
}

fn append_digest_heading(out: &mut String, post: &DigestPost)
    ensures
        final(out)@ == with_heading_words(old(out)@, post@),
{
    out.push_str("\n## ");
    let place = match &post.subreddit {
        Some(name) => {
            let mut s = "r/".to_owned();
            s.push_str(name.as_str());
            s
        },
        None => "unknown subreddit".to_owned(),
    };
    out.push_str(place.as_str());
    out.push_str(": ");
    out.push_str(trim_for_digest(or_text(&post.title, "(untitled)"), 180).as_str());
    out.push_str("\n");
    match &post.permalink {
        Some(link) => {
            out.push_str("- Post: ");
            out.push_str(link.as_str());
            out.push_str("\n");
        },
        None => {},
    }
    out.push_str("- u/");
    out.push_str(or_text(&post.author, "[unknown]"));
    out.push_str(" - ");
    out.push_str(or_mark(post.score).as_str());
    out.push_str(" pts - ");
    out.push_str(or_mark(post.num_comments).as_str());
    out.push_str(" comments - activity ");
    out.push_str(number::i64_text(post.activity_utc).as_str());
    out.push_str("\n");
}

/// Appends the section of a post.
pub fn append_digest_post(out: &mut String, post: &DigestPost)
    ensures
        final(out)@ == with_post_words(old(out)@, post@),
{
    append_digest_heading(out, post);
    assert(post.comments@.len() == post@.comments.len());
    if post.comments.len() == 0 {
        out.push_str("\nNo new comments captured for this post.\n");
    } else {
        out.push_str("\nTop new comments:\n");
        append_digest_comments(out, &post.comments);
    }
}

fn append_digest_posts(out: &mut String, posts: &Vec<DigestPost>)
    ensures
        final(out)@ == with_posts_words(old(out)@, digest::posts_model(posts@)),
{
    let ghost was = out@;
    let ghost all = digest::posts_model(posts@);
    let mut i: usize = 0;
    assert(all.take(0) =~= Seq::empty());
    while i < posts.len()
        invariant
            i <= posts@.len(),
            all == digest::posts_model(posts@),
            out@ == with_posts_words(was, all.take(i as int)),
        decreases posts@.len() - i,
    {
        proof {
            let t = all.take(i + 1);
            assert(t.drop_last() =~= all.take(i as int));
            assert(t.last() == posts@[i as int]@);
        }
        append_digest_post(out, &posts[i]);
        i = i + 1;
    }
    assert(all.take(all.len() as int) =~= all);
}

fn head_of_digest(digest: &Digest) -> (r: String)
    ensures
        r@ == digest_head(digest@),
{
    let mut out = "# rdt digest\n\n".to_owned();
    out.push_str("- Since: ");
    out.push_str(number::i64_text(digest.since_utc).as_str());
    out.push_str("\n");
    out.push_str("- Generated: ");
    out.push_str(number::i64_text(digest.generated_utc).as_str());
    out.push_str("\n");
    match &digest.subreddit {
        Some(name) => {
            out.push_str("- Subreddit: r/");
            out.push_str(name.as_str());
            out.push_str("\n");
        },
        None => {},
    }
    assert(digest.posts@.len() == digest@.posts.len());
    out.push_str("- Activity: ");
    out.push_str(number::usize_text(digest.posts.len()).as_str());
    out.push_str(" post group(s), ");
    out.push_str(number::usize_text(digest.comment_count()).as_str());
    out.push_str(" new comment(s)\n");
    out
}

/// Writes a digest as Markdown.
pub fn format_digest_markdown(digest: &Digest) -> (r: String)
    ensures
        r@ == digest_words(digest@),
{
    let mut out = head_of_digest(digest);
    assert(digest.posts@.len() == digest@.posts.len());
    assert(digest.orphan_comments@.len() == digest@.orphan_comments.len());
    if digest.posts.len() == 0 && digest.orphan_comments.len() == 0 {
        out.push_str("\nNo local activity matched.\n");
        return out;
    }
    append_digest_posts(&mut out, &digest.posts);
    if digest.orphan_comments.len() > 0 {
        out.push_str("\n## Comments without local posts\n");
        append_digest_comments(&mut out, &digest.orphan_comments);
    }
    out
}

// ---------------------------------------------------------------------------
// What holds of print
// ---------------------------------------------------------------------------

/// So many spaces.
pub open spec fn spaces(n: nat) -> Seq<char> {
    Seq::new(n, |i: int| ' ')
}

proof fn lemma_indentation(depth: nat)
    ensures
        indentation(depth) == spaces(2 * depth),
    decreases depth,
{
    if depth > 0 {
        lemma_indentation((depth - 1) as nat);
        reveal_strlit("  ");
        assert(indentation(depth) =~= spaces(2 * depth));
    } else {
        assert(indentation(depth) =~= spaces(2 * depth));
    }
}

/// A text that is too long is cut so that it is as long as it may be, with dots
/// at its end. A line end is shown as a space, and everything else as it is.
pub proof fn law_long_texts_are_cut(input: Seq<char>, max: nat)
    requires
        max >= 3,
    ensures
        input.len() > max ==> shortened(input, max).len() == max && "..."@.is_suffix_of(
            shortened(input, max),
        ),
        input.len() <= max ==> shortened(input, max).len() == input.len(),
        forall|i: int|
            0 <= i < input.len() && (input.len() <= max || i < max - 3) ==> #[trigger] shortened(
                input,
                max,
            )[i] == if input[i] == '\n' {
                ' '
            } else {
                input[i]
            },
{
    reveal_strlit("...");
    let line = text::replace_char(input, '\n', ' ');
    if input.len() > max {
        let s = shortened(input, max);
        assert(s.subrange(max - 3, max as int) =~= "..."@);
    }
}

/// A colour is put around a text and leaves the text as it is, and where colours
/// are off nothing is put around it.
pub proof fn law_colours_go_around_the_text(input: Seq<char>, colour: Colour)
    ensures
        painted(input, colour, true) == input,
        text::contains(painted(input, colour, false), input),
        colour == Colour::Blue ==> painted(input, colour, false) == "\u{1b}[34m"@ + input
            + "\u{1b}[39m"@,
        colour == Colour::Grey ==> painted(input, colour, false) == "\u{1b}[90m"@ + input
            + "\u{1b}[39m"@,
        colour == Colour::Green ==> painted(input, colour, false) == "\u{1b}[32m"@ + input
            + "\u{1b}[39m"@,
        colour == Colour::Yellow ==> painted(input, colour, false) == "\u{1b}[33m"@ + input
            + "\u{1b}[39m"@,
{
    let front = match colour {
        Colour::Blue => "\u{1b}[34m"@,
        Colour::Grey => "\u{1b}[90m"@,
        Colour::Green => "\u{1b}[32m"@,
        Colour::Yellow => "\u{1b}[33m"@,
    };
    let s = painted(input, colour, false);
    let n = front.len() as int;
    assert(s.subrange(n, n + input.len()) =~= input);
    assert(text::occurs_at(s, input, n));
}

/// An item is printed with two spaces for each level of depth, its number or a
/// dash, its kind, and of its subreddit, author and score those that are known.
/// Its title comes last on the line, and its permalink has a line of its own,
/// indented in the same way.
#[verifier::rlimit(50)]
pub proof fn law_items_are_printed_with_what_they_hold(item: ItemModel)
    ensures
        ({
            let indent = spaces(2 * item.depth as nat);
            let index = match item.index {
                Some(n) => number::decimal(n as nat),
                None => "-"@,
            };
            let kind = match item.kind {
                ItemKind::Post => "post"@,
                ItemKind::Comment => "comment"@,
                ItemKind::Subreddit => "sub"@,
                ItemKind::User => "user"@,
                ItemKind::More => "more"@,
                ItemKind::Unknown => "item"@,
            };
            let subreddit = match item.subreddit {
                Some(name) => " r/"@ + name,
                None => Seq::empty(),
            };
            let author = match item.author {
                Some(name) => " u/"@ + name,
                None => Seq::empty(),
            };
            let score = match item.score {
                Some(n) => " "@ + number::signed(n as int) + " pts"@,
                None => Seq::empty(),
            };
            let head = indent + index + ". "@ + ("["@ + kind + "]"@) + subreddit + author + score
                + " "@ + shortened(item.display_title(), 180) + "\n"@;
            let painted_head = indent + ("\u{1b}[34m"@ + index + "\u{1b}[39m"@) + ". "@ + (
            "\u{1b}[90m"@ + ("["@ + kind + "]"@) + "\u{1b}[39m"@) + ("\u{1b}[32m"@ + subreddit
                + "\u{1b}[39m"@) + ("\u{1b}[33m"@ + author + "\u{1b}[39m"@) + ("\u{1b}[90m"@
                + score + "\u{1b}[39m"@) + " "@ + shortened(item.display_title(), 180) + "\n"@;
            &&& item.permalink is None ==> item_words(item, true) == head && item_words(
                item,
                false,
            ) == painted_head
            &&& item.permalink matches Some(link) ==> item_words(item, true) == head + indent
                + "   "@ + model::canonical(link) + "\n"@ && item_words(item, false)
                == painted_head + indent + "   "@ + model::canonical(link) + "\n"@
        }),
{
    lemma_indentation(item.depth as nat);
}

proof fn lemma_flattened<A>(all: Seq<A>, f: spec_fn(A) -> Seq<char>)
    requires
        all.len() > 0,
    ensures
        all.map_values(f).flatten() == all.drop_last().map_values(f).flatten() + f(all.last()),
{
    let parts = all.map_values(f);
    let front = all.drop_last().map_values(f);
    parts.lemma_flatten_and_flatten_alt_are_equivalent();
    front.lemma_flatten_and_flatten_alt_are_equivalent();
    assert(parts.drop_last() =~= front);
    assert(parts.last() == f(all.last()));
}

/// Some items are printed one after another, each as it is printed alone.
pub proof fn law_all_items_are_printed(items: Seq<ItemModel>, no_color: bool)
    ensures
        items_words(items, no_color) == items.map_values(
            |item: ItemModel| item_words(item, no_color),
        ).flatten(),
    decreases items.len(),
{
    let f = |item: ItemModel| item_words(item, no_color);
    if items.len() > 0 {
        law_all_items_are_printed(items.drop_last(), no_color);
        lemma_flattened(items, f);
    } else {
        assert(items.map_values(f).flatten() =~= Seq::empty());
    }
}

/// A thread is printed with its post, an empty line and all its comments in
/// order.
pub proof fn law_threads_are_printed_whole(thread: ThreadModel, no_color: bool)
    ensures
        thread.post matches Some(post) ==> thread_body(thread, no_color) == item_words(
            post,
            no_color,
        ) + "\n"@ + items_words(thread.comments, no_color),
        thread.post is None ==> thread_body(thread, no_color) == items_words(
            thread.comments,
            no_color,
        ),
{
    if thread.post is None {
        assert(Seq::<char>::empty() + items_words(thread.comments, no_color) =~= items_words(
            thread.comments,
            no_color,
        ));
    }
}

/// A report tells the subreddit, what was captured, what was new, updated and
/// asked, and the status. It tells what remains and its notice where there are
/// any. Some reports are printed one after another.
#[verifier::rlimit(50)]
pub proof fn law_reports_tell_what_they_hold(report: ReportModel, reports: Seq<ReportModel>)
    ensures
        ({
            let kind = match report.kind {
                store::StreamKind::Posts => "posts"@,
                store::StreamKind::Comments => "comments"@,
                store::StreamKind::Backfill => "backfill"@,
                store::StreamKind::Refresh => "refresh"@,
            };
            let remaining = match report.remaining_items {
                Some(n) => ", "@ + number::decimal(n as nat) + " remaining"@,
                None => Seq::empty(),
            };
            let notice = match report.notice {
                Some(words) => "  "@ + words + "\n"@,
                None => Seq::empty(),
            };
            report_words(report) == "r/"@ + report.subreddit + " "@ + kind + ": "@
                + number::decimal(report.new_items as nat) + " new, "@ + number::decimal(
                report.updated_items as nat,
            ) + " updated, "@ + number::decimal(report.http_requests as nat) + " request(s), "@
                + report.status + remaining + "\n"@ + notice
        }),
        reports_words(reports) == reports.map_values(|r: ReportModel| report_words(r)).flatten(),
    decreases reports.len(),
{
    let kind = report.kind.word();
    let head = "r/"@ + report.subreddit + " "@ + kind + ": "@ + number::decimal(
        report.new_items as nat,
    ) + " new, "@ + number::decimal(report.updated_items as nat) + " updated, "@
        + number::decimal(report.http_requests as nat) + " request(s), "@ + report.status;
    let remaining = match report.remaining_items {
        Some(n) => ", "@ + number::decimal(n as nat) + " remaining"@,
        None => Seq::empty(),
    };
    let notice = match report.notice {
        Some(words) => "  "@ + words + "\n"@,
        None => Seq::empty(),
    };
    assert(report_words(report) =~= head + remaining + "\n"@ + notice);
    let f = |r: ReportModel| report_words(r);
    if reports.len() > 0 {
        law_reports_tell_what_they_hold(report, reports.drop_last());
        lemma_flattened(reports, f);
    } else {
        assert(reports.map_values(f).flatten() =~= Seq::empty());
    }
}

/// A row is printed with a line for each column, its name and its value. Rows
/// are printed one after another, each under its number, and a word where there
/// are none.
pub proof fn law_rows_are_printed_by_column(
    row: Seq<(Seq<char>, JsonModel)>,
    rows: Seq<Seq<(Seq<char>, JsonModel)>>,
)
    ensures
        row_words(row) == row.map_values(
            |cell: (Seq<char>, JsonModel)|
                "  "@ + cell.0 + ": "@ + value_words(cell.1, one_line(cell.1)) + "\n"@,
        ).flatten(),
        numbered_rows(rows) == Seq::new(
            rows.len(),
            |i: int| "["@ + number::decimal((i + 1) as nat) + "]\n"@ + row_words(rows[i]),
        ).flatten(),
        rows.len() == 0 ==> rows_words(rows) == "(no rows)\n"@,
        rows.len() > 0 ==> rows_words(rows) == numbered_rows(rows),
{
    lemma_row(row);
    lemma_rows(rows);
}

proof fn lemma_row(row: Seq<(Seq<char>, JsonModel)>)
    ensures
        row_words(row) == row.map_values(
            |cell: (Seq<char>, JsonModel)|
                "  "@ + cell.0 + ": "@ + value_words(cell.1, one_line(cell.1)) + "\n"@,
        ).flatten(),
    decreases row.len(),
{
    let f = |cell: (Seq<char>, JsonModel)|
        "  "@ + cell.0 + ": "@ + value_words(cell.1, one_line(cell.1)) + "\n"@;
    if row.len() > 0 {
        lemma_row(row.drop_last());
        lemma_flattened(row, f);
        assert(row_words(row) =~= row_words(row.drop_last()) + f(row.last()));
    } else {
        assert(row.map_values(f).flatten() =~= Seq::empty());
    }
}

proof fn lemma_rows(rows: Seq<Seq<(Seq<char>, JsonModel)>>)
    ensures
        numbered_rows(rows) == Seq::new(
            rows.len(),
            |i: int| "["@ + number::decimal((i + 1) as nat) + "]\n"@ + row_words(rows[i]),
        ).flatten(),
    decreases rows.len(),
{
    let parts = Seq::new(
        rows.len(),
        |i: int| "["@ + number::decimal((i + 1) as nat) + "]\n"@ + row_words(rows[i]),
    );
    parts.lemma_flatten_and_flatten_alt_are_equivalent();
    if rows.len() > 0 {
        let front = rows.drop_last();
        lemma_rows(front);
        let before = Seq::new(
            front.len(),
            |i: int| "["@ + number::decimal((i + 1) as nat) + "]\n"@ + row_words(front[i]),
        );
        before.lemma_flatten_and_flatten_alt_are_equivalent();
        assert(parts.drop_last() =~= before);
        assert(parts.last() == "["@ + number::decimal(rows.len()) + "]\n"@ + row_words(
            rows.last(),
        ));
        assert(numbered_rows(rows) =~= numbered_rows(front) + parts.last());
    } else {
        assert(parts.flatten() =~= Seq::empty());
    }
}

/// A value is printed as it is: nothing for nothing, a truth value by its word, a
/// number and a text in their own words, and a list or an object on one line.
pub proof fn law_values_are_printed_as_they_are(
    value: JsonModel,
    words: Seq<char>,
    line: Option<Seq<char>>,
)
    ensures
        value is Null ==> value_words(value, line).len() == 0,
        value == JsonModel::Bool(true) ==> value_words(value, line) == "true"@,
        value == JsonModel::Bool(false) ==> value_words(value, line) == "false"@,
        value == JsonModel::Text(words) ==> value_words(value, line) == words,
        value matches JsonModel::Number(n) ==> value_words(value, line) == n.text,
        value is List || value is Object ==> (line matches Some(s) ==> value_words(value, line)
            == s),
{
}

/// A comment of a digest is printed with its author, score, moment and body, and
/// its permalink on a line of its own. What stands before it stays.
#[verifier::rlimit(50)]
pub proof fn law_digest_comments_tell_what_they_hold(out: Seq<char>, comment: CommentModel)
    ensures
        ({
            let author = match comment.author {
                Some(name) => name,
                None => "[unknown]"@,
            };
            let score = match comment.score {
                Some(n) => number::signed(n as int),
                None => "?"@,
            };
            let at = match comment.created_utc {
                Some(n) => number::signed(n as int),
                None => "?"@,
            };
            let body = match comment.body {
                Some(words) => shortened(words, 500),
                None => "(empty)"@,
            };
            let link = match comment.permalink {
                Some(link) => "  "@ + link + "\n"@,
                None => Seq::empty(),
            };
            with_comment_words(out, comment) == out + ("- u/"@ + author + " - "@ + score
                + " pts - "@ + at + ": "@ + body + "\n"@ + link)
        }),
{
    reveal_strlit("(empty)");
    let line = text::replace_char("(empty)"@, '\n', ' ');
    assert(line =~= "(empty)"@);
    let score = number_or_mark(comment.score);
    let at = number_or_mark(comment.created_utc);
    let link = match comment.permalink {
        Some(link) => "  "@ + link + "\n"@,
        None => Seq::empty(),
    };
    let author = text_or(comment.author, "[unknown]"@);
    let body = shortened(text_or(comment.body, "(empty)"@), 500);
    assert(with_comment_words(out, comment) =~= out + ("- u/"@ + author + " - "@ + score
        + " pts - "@ + at + ": "@ + body + "\n"@ + link));
}

/// The comments of a digest are printed one after another, each as it is printed
/// alone, behind what was there.
pub proof fn law_all_digest_comments_are_printed(out: Seq<char>, comments: Seq<CommentModel>)
    ensures
        with_comments_words(out, comments) == out + comments.map_values(
            |c: CommentModel| with_comment_words(Seq::empty(), c),
        ).flatten(),
    decreases comments.len(),
{
    let f = |c: CommentModel| with_comment_words(Seq::empty(), c);
    if comments.len() > 0 {
        let front = comments.drop_last();
        law_all_digest_comments_are_printed(out, front);
        lemma_flattened(comments, f);
        let before = with_comments_words(out, front);
        let last = comments.last();
        law_digest_comments_tell_what_they_hold(before, last);
        law_digest_comments_tell_what_they_hold(Seq::empty(), last);
        assert(with_comment_words(before, last) =~= before + f(last));
        assert(with_comments_words(out, comments) =~= out + comments.map_values(f).flatten());
    } else {
        assert(out + comments.map_values(f).flatten() =~= out);
    }
}

/// A post of a digest is printed under its subreddit and title, with its
/// permalink, author, score, number of comments and activity, and then its new
/// comments, or that there are none.
#[verifier::rlimit(50)]
pub proof fn law_digest_posts_tell_what_they_hold(out: Seq<char>, post: PostModel)
    ensures
        ({
            let place = match post.subreddit {
                Some(name) => "r/"@ + name,
                None => "unknown subreddit"@,
            };
            let title = match post.title {
                Some(words) => shortened(words, 180),
                None => "(untitled)"@,
            };
            let link = match post.permalink {
                Some(link) => "- Post: "@ + link + "\n"@,
                None => Seq::empty(),
            };
            let author = match post.author {
                Some(name) => name,
                None => "[unknown]"@,
            };
            let score = match post.score {
                Some(n) => number::signed(n as int),
                None => "?"@,
            };
            let count = match post.num_comments {
                Some(n) => number::signed(n as int),
                None => "?"@,
            };
            let head = out + "\n## "@ + place + ": "@ + title + "\n"@ + link + "- u/"@ + author
                + " - "@ + score + " pts - "@ + count + " comments - activity "@ + number::signed(
                post.activity_utc as int,
            ) + "\n"@;
            &&& post.comments.len() == 0 ==> with_post_words(out, post) == head
                + "\nNo new comments captured for this post.\n"@
            &&& post.comments.len() > 0 ==> with_post_words(out, post) == with_comments_words(
                head + "\nTop new comments:\n"@,
                post.comments,
            )
        }),
{
    reveal_strlit("(untitled)");
    let line = text::replace_char("(untitled)"@, '\n', ' ');
    assert(line =~= "(untitled)"@);
    let title = shortened(text_or(post.title, "(untitled)"@), 180);
    let place = match post.subreddit {
        Some(name) => "r/"@ + name,
        None => "unknown subreddit"@,
    };
    let link = match post.permalink {
        Some(link) => "- Post: "@ + link + "\n"@,
        None => Seq::empty(),
    };
    let front = out + "\n## "@ + place + ": "@ + title + "\n"@;
    if post.permalink is None {
        assert(front + link =~= front);
    } else {
        assert(front + link =~= front + "- Post: "@ + post.permalink->0 + "\n"@);
    }
}

/// A digest tells its moments, its subreddit where it is of one, and how many
/// posts and comments it has. Then come its posts in order, and then the comments
/// without a post under a heading of their own.
#[verifier::rlimit(50)]
pub proof fn law_digests_tell_what_they_hold(digest: DigestModel)
    ensures
        ({
            let place = match digest.subreddit {
                Some(name) => "- Subreddit: r/"@ + name + "\n"@,
                None => Seq::empty(),
            };
            let head = "# rdt digest\n\n"@ + "- Since: "@ + number::signed(
                digest.since_utc as int,
            ) + "\n"@ + "- Generated: "@ + number::signed(digest.generated_utc as int) + "\n"@
                + place + "- Activity: "@ + number::decimal(digest.posts.len())
                + " post group(s), "@ + number::decimal(digest.comment_count() as nat)
                + " new comment(s)\n"@;
            let posts = with_posts_words(head, digest.posts);
            &&& digest.posts.len() == 0 && digest.orphan_comments.len() == 0 ==> digest_words(
                digest,
            ) == head + "\nNo local activity matched.\n"@
            &&& digest.orphan_comments.len() > 0 ==> digest_words(digest) == with_comments_words(
                posts + "\n## Comments without local posts\n"@,
                digest.orphan_comments,
            )
            &&& digest.posts.len() > 0 && digest.orphan_comments.len() == 0 ==> digest_words(
                digest,
            ) == posts
        }),
{
    let place = match digest.subreddit {
        Some(name) => "- Subreddit: r/"@ + name + "\n"@,
        None => Seq::empty(),
    };
    let times = "# rdt digest\n\n"@ + "- Since: "@ + number::signed(digest.since_utc as int)
        + "\n"@ + "- Generated: "@ + number::signed(digest.generated_utc as int) + "\n"@;
    if digest.subreddit is None {
        assert(times + place =~= times);
    } else {
        assert(times + place =~= times + "- Subreddit: r/"@ + digest.subreddit->0 + "\n"@);
    }
}

/// The posts of a digest are printed one after another, each as it is printed
/// alone, behind what was there.
pub proof fn law_all_digest_posts_are_printed(out: Seq<char>, posts: Seq<PostModel>)
    ensures
        with_posts_words(out, posts) == out + posts.map_values(
            |p: PostModel| with_post_words(Seq::empty(), p),
        ).flatten(),
    decreases posts.len(),
{
    let f = |p: PostModel| with_post_words(Seq::empty(), p);
    if posts.len() > 0 {
        let front = posts.drop_last();
        law_all_digest_posts_are_printed(out, front);
        lemma_flattened(posts, f);
        let before = with_posts_words(out, front);
        lemma_post_behind(before, posts.last());
        assert(with_posts_words(out, posts) =~= out + posts.map_values(f).flatten());
    } else {
        assert(out + posts.map_values(f).flatten() =~= out);
    }
}

proof fn lemma_behind(out: Seq<char>, a: Seq<char>, b: Seq<char>)
    ensures
        out + a + b == out + (a + b),
{
    assert(out + a + b =~= out + (a + b));
}

proof fn lemma_heading_behind(out: Seq<char>, post: PostModel)
    ensures
        with_heading_words(out, post) == out + with_heading_words(Seq::empty(), post),
{
    let none = Seq::<char>::empty();
    let place = match post.subreddit {
        Some(name) => "r/"@ + name,
        None => "unknown subreddit"@,
    };
    let title = shortened(text_or(post.title, "(untitled)"@), 180);
    assert(out + none =~= out);
    lemma_behind(out, none, "\n## "@);
    let a = none + "\n## "@;
    lemma_behind(out, a, place);
    let a = a + place;
    lemma_behind(out, a, ": "@);
    let a = a + ": "@;
    lemma_behind(out, a, title);
    let a = a + title;
    lemma_behind(out, a, "\n"@);
    let a = a + "\n"@;
    let linked = match post.permalink {
        Some(link) => a + "- Post: "@ + link + "\n"@,
        None => a,
    };
    if let Some(link) = post.permalink {
        lemma_behind(out, a, "- Post: "@);
        lemma_behind(out, a + "- Post: "@, link);
        lemma_behind(out, a + "- Post: "@ + link, "\n"@);
    }
    lemma_figures_behind(out, linked, post);
}

proof fn lemma_figures_behind(out: Seq<char>, linked: Seq<char>, post: PostModel)
    ensures
        out + linked + "- u/"@ + text_or(post.author, "[unknown]"@) + " - "@ + number_or_mark(
            post.score,
        ) + " pts - "@ + number_or_mark(post.num_comments) + " comments - activity "@
            + number::signed(post.activity_utc as int) + "\n"@ == out + (linked + "- u/"@ + text_or(
            post.author,
            "[unknown]"@,
        ) + " - "@ + number_or_mark(post.score) + " pts - "@ + number_or_mark(post.num_comments)
            + " comments - activity "@ + number::signed(post.activity_utc as int) + "\n"@),
{
    let author = text_or(post.author, "[unknown]"@);
    let score = number_or_mark(post.score);
    let count = number_or_mark(post.num_comments);
    let at = number::signed(post.activity_utc as int);
    let a = linked;
    lemma_behind(out, a, "- u/"@);
    let a = a + "- u/"@;
    lemma_behind(out, a, author);
    let a = a + author;
    lemma_behind(out, a, " - "@);
    let a = a + " - "@;
    lemma_behind(out, a, score);
    let a = a + score;
    lemma_behind(out, a, " pts - "@);
    let a = a + " pts - "@;
    lemma_behind(out, a, count);
    let a = a + count;
    lemma_behind(out, a, " comments - activity "@);
    let a = a + " comments - activity "@;
    lemma_behind(out, a, at);
    let a = a + at;
    lemma_behind(out, a, "\n"@);
}

proof fn lemma_post_behind(out: Seq<char>, post: PostModel)
    ensures
        with_post_words(out, post) == out + with_post_words(Seq::empty(), post),
{
    let head = with_heading_words(Seq::empty(), post);
    lemma_heading_behind(out, post);
    if post.comments.len() > 0 {
        let title = "\nTop new comments:\n"@;
        let tail = post.comments.map_values(
            |c: CommentModel| with_comment_words(Seq::empty(), c),
        ).flatten();
        law_all_digest_comments_are_printed(out + head + title, post.comments);
        law_all_digest_comments_are_printed(head + title, post.comments);
        lemma_behind(out, head, title);
        lemma_behind(out, head + title, tail);
    } else {
        lemma_behind(out, head, "\nNo new comments captured for this post.\n"@);
    }
}

} // verus!
