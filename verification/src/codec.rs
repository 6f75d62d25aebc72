//! Conversion between todo items and their one-line text form.
//!
//! A stored line is exactly `"[x] "` (completed) or `"[ ] "` (pending)
//! followed by the description, taken verbatim. A whole list is stored as
//! one line per item, joined with `'\n'` and without a trailing newline.
//!
//! The format has no escaping: the first four characters of a line alone
//! decide the flag, so even a description that itself begins with a status
//! prefix round-trips exactly ([`lemma_parse_format_item`]). What cannot
//! round-trip through the line-per-item file is a description containing a
//! newline; [`lemma_list_round_trip`] therefore asks for single-line
//! descriptions, which [`lemma_parse_list_wf`] shows loading always yields.

use vstd::prelude::*;

verus! {

/// One task: a completion flag and a single-line description.
#[derive(Debug)]
pub struct TodoItem {
    pub completed: bool,
    pub description: String,
}

/// Mathematical model of a [`TodoItem`].
pub ghost struct ItemModel {
    pub completed: bool,
    pub description: Seq<char>,
}

impl View for TodoItem {
    type V = ItemModel;

    open spec fn view(&self) -> ItemModel {
        ItemModel { completed: self.completed, description: self.description@ }
    }
}

/// The four characters that open the line of a completed item.
pub open spec fn done_prefix() -> Seq<char> {
    seq!['[', 'x', ']', ' ']
}

/// The four characters that open the line of a pending item.
pub open spec fn pending_prefix() -> Seq<char> {
    seq!['[', ' ', ']', ' ']
}

/// The status prefix that [`spec_format_item`] puts before a description.
pub open spec fn status_prefix(completed: bool) -> Seq<char> {
    if completed {
        done_prefix()
    } else {
        pending_prefix()
    }
}

/// What a line denotes: `Some` item when it carries a status prefix,
/// `None` otherwise.
pub open spec fn spec_parse_line(line: Seq<char>) -> Option<ItemModel> {
    if line.len() >= 4 && line.subrange(0, 4) == done_prefix() {
        Some(ItemModel { completed: true, description: line.skip(4) })
    } else if line.len() >= 4 && line.subrange(0, 4) == pending_prefix() {
        Some(ItemModel { completed: false, description: line.skip(4) })
    } else {
        None
    }
}

/// The one-line rendering of an item: status prefix, then the description.
pub open spec fn spec_format_item(m: ItemModel) -> Seq<char> {
    status_prefix(m.completed) + m.description
}

/// The message reported for a line that carries no status prefix.
pub open spec fn invalid_message(line: Seq<char>) -> Seq<char> {
    "Invalid todo item format: "@ + line
}

fn make_invalid_message(line: &str) -> (r: String)
    ensures
        r@ == invalid_message(line@),
{
    let m = String::from_str("Invalid todo item format: ");
    m.concat(line)
}

/// Parses one stored line. A valid line starts with exactly `"[x] "` or
/// `"[ ] "`; the rest is the description, which may be empty. Any other
/// line is rejected with a message naming it.
pub fn parse_todo_item(line: &str) -> (r: Result<TodoItem, String>)
    ensures
        match r {
            Ok(item) => spec_parse_line(line@) == Some(item@),
            Err(e) => spec_parse_line(line@) is None && e@ == invalid_message(line@),
        },
{
    let len = line.unicode_len();
    if len < 4 {
        return Err(make_invalid_message(line));
    }
    let c0 = line.get_char(0);
    let c1 = line.get_char(1);
    let c2 = line.get_char(2);
    let c3 = line.get_char(3);
    let completed = c0 == '[' && c1 == 'x' && c2 == ']' && c3 == ' ';
    let pending = c0 == '[' && c1 == ' ' && c2 == ']' && c3 == ' ';
    if completed || pending {
        let description = line.substring_char(4, len).to_owned();
        proof {
            if completed {
                assert(line@.subrange(0, 4) =~= done_prefix());
            } else {
                assert(line@.subrange(0, 4) =~= pending_prefix());
                assert(line@.subrange(0, 4) != done_prefix());
            }
        }
        Ok(TodoItem { completed, description })
    } else {
        proof {
            assert(line@.subrange(0, 4)[0] == c0);
            assert(line@.subrange(0, 4)[1] == c1);
            assert(line@.subrange(0, 4)[2] == c2);
            assert(line@.subrange(0, 4)[3] == c3);
            assert(line@.subrange(0, 4) != done_prefix());
            assert(line@.subrange(0, 4) != pending_prefix());
        }
        Err(make_invalid_message(line))
    }
}

/// The models of a sequence of items.
pub open spec fn models(s: Seq<TodoItem>) -> Seq<ItemModel> {
    s.map_values(|t: TodoItem| t@)
}

/// The views of a sequence of strings.
pub open spec fn string_views(s: Seq<String>) -> Seq<Seq<char>> {
    s.map_values(|w: String| w@)
}

/// Number of characters before the first `'\n'` of `text`
/// (the whole length when there is none).
pub open spec fn line_len(text: Seq<char>) -> nat
    decreases text.len(),
{
    if text.len() == 0 || text[0] == '\n' {
        0
    } else {
        1 + line_len(text.skip(1))
    }
}

pub proof fn lemma_line_len_bounds(text: Seq<char>)
    ensures
        line_len(text) <= text.len(),
        forall|k: int| 0 <= k < line_len(text) ==> text[k] != '\n',
        line_len(text) < text.len() ==> text[line_len(text) as int] == '\n',
    decreases text.len(),
{
    if text.len() != 0 && text[0] != '\n' {
        lemma_line_len_bounds(text.skip(1));
        assert forall|k: int| 0 <= k < line_len(text) implies text[k] != '\n' by {
            if k > 0 {
                assert(text.skip(1)[k - 1] != '\n');
            }
        }
    }
}

/// `line_len` is pinned down by a witness: no newline before `j`, and a
/// newline (or the end of the text) at `j`.
pub proof fn lemma_line_len_at(text: Seq<char>, j: int)
    requires
        0 <= j <= text.len(),
        forall|k: int| 0 <= k < j ==> text[k] != '\n',
        j < text.len() ==> text[j] == '\n',
    ensures
        line_len(text) == j,
    decreases j,
{
    if j == 0 {
    } else {
        assert(text[0] != '\n');
        lemma_line_len_at(text.skip(1), j - 1);
    }
}

/// What a whole stored text denotes: each line parsed independently, in
/// order, with unparsable lines skipped.
pub open spec fn spec_parse_list(text: Seq<char>) -> Seq<ItemModel>
    decreases text.len(),
    via spec_parse_list_decreases
{
    if text.len() == 0 {
        seq![]
    } else {
        let j = line_len(text) as int;
        let line = text.take(j);
        let rest = if j == text.len() {
            Seq::<char>::empty()
        } else {
            text.skip(j + 1)
        };
        match spec_parse_line(line) {
            Some(m) => seq![m] + spec_parse_list(rest),
            None => spec_parse_list(rest),
        }
    }
}

#[via_fn]
proof fn spec_parse_list_decreases(text: Seq<char>) {
    lemma_line_len_bounds(text);
}

/// The warning messages that loading a stored text reports: one for each
/// line that carries no status prefix, in line order.
pub open spec fn spec_skipped_warnings(text: Seq<char>) -> Seq<Seq<char>>
    decreases text.len(),
    via spec_skipped_warnings_decreases
{
    if text.len() == 0 {
        seq![]
    } else {
        let j = line_len(text) as int;
        let line = text.take(j);
        let rest = if j == text.len() {
            Seq::<char>::empty()
        } else {
            text.skip(j + 1)
        };
        match spec_parse_line(line) {
            Some(m) => spec_skipped_warnings(rest),
            None => seq![invalid_message(line)] + spec_skipped_warnings(rest),
        }
    }
}

#[via_fn]
proof fn spec_skipped_warnings_decreases(text: Seq<char>) {
    lemma_line_len_bounds(text);
}

/// Splits a stored text into lines, parses each, and returns the parsed
/// items together with one warning message per skipped line. A trailing
/// newline produces no final empty line.
pub fn parse_todo_list_report(contents: &str) -> (r: (Vec<TodoItem>, Vec<String>))
    ensures
        models(r.0@) == spec_parse_list(contents@),
        string_views(r.1@) == spec_skipped_warnings(contents@),
{
    let len = contents.unicode_len();
    let mut items: Vec<TodoItem> = Vec::new();
    let mut warnings: Vec<String> = Vec::new();
    let mut start: usize = 0;
    let mut i: usize = 0;
    proof {
        assert(contents@.skip(0) =~= contents@);
        assert(models(items@) =~= Seq::<ItemModel>::empty());
        assert(string_views(warnings@) =~= Seq::<Seq<char>>::empty());
        assert(spec_parse_list(contents@) =~= models(items@) + spec_parse_list(contents@.skip(0)));
        assert(spec_skipped_warnings(contents@) =~= string_views(warnings@)
            + spec_skipped_warnings(contents@.skip(0)));
    }
    while i < len
        invariant
            start <= i <= len,
            len == contents@.len(),
            forall|k: int| start <= k < i ==> contents@[k] != '\n',
            spec_parse_list(contents@) =~= models(items@) + spec_parse_list(
                contents@.skip(start as int),
            ),
            spec_skipped_warnings(contents@) =~= string_views(warnings@)
                + spec_skipped_warnings(contents@.skip(start as int)),
        decreases len - i,
    {
        let c = contents.get_char(i);
        if c == '\n' {
            let line = contents.substring_char(start, i);
            proof {
                let sk = contents@.skip(start as int);
                lemma_line_len_at(sk, i - start);
                assert(sk.take(i - start) =~= line@);
                assert(sk.skip(i - start + 1) =~= contents@.skip(i + 1));
            }
            match parse_todo_item(line) {
                Ok(item) => {
                    let ghost old_items = items@;
                    items.push(item);
                    proof {
                        assert(models(items@) =~= models(old_items).push(item@));
                        assert(spec_parse_list(contents@) =~= models(items@)
                            + spec_parse_list(contents@.skip(i + 1)));
                    }
                },
                Err(w) => {
                    let ghost old_warnings = warnings@;
                    warnings.push(w);
                    proof {
                        assert(string_views(warnings@) =~= string_views(old_warnings).push(w@));
                        assert(spec_skipped_warnings(contents@) =~= string_views(warnings@)
                            + spec_skipped_warnings(contents@.skip(i + 1)));
                    }
                },
            }
            i = i + 1;
            start = i;
        } else {
            i = i + 1;
        }
    }
    if start < len {
        let line = contents.substring_char(start, len);
        proof {
            let sk = contents@.skip(start as int);
            lemma_line_len_at(sk, len - start);
            assert(sk.take(len - start) =~= line@);
            assert(spec_parse_list(Seq::<char>::empty()) =~= Seq::<ItemModel>::empty());
            assert(spec_skipped_warnings(Seq::<char>::empty()) =~= Seq::<Seq<char>>::empty());
        }
        match parse_todo_item(line) {
            Ok(item) => {
                let ghost old_items = items@;
                items.push(item);
                proof {
                    let sk = contents@.skip(start as int);
                    assert(spec_parse_list(sk) =~= seq![item@]);
                    assert(spec_skipped_warnings(sk) =~= Seq::<Seq<char>>::empty());
                    assert(models(items@) =~= models(old_items).push(item@));
                    assert(spec_parse_list(contents@) =~= models(items@));
                    assert(spec_skipped_warnings(contents@) =~= string_views(warnings@));
                }
            },
            Err(w) => {
                let ghost old_warnings = warnings@;
                warnings.push(w);
                proof {
                    let sk = contents@.skip(start as int);
                    assert(spec_parse_list(sk) =~= Seq::<ItemModel>::empty());
                    assert(spec_skipped_warnings(sk) =~= seq![invalid_message(line@)]);
                    assert(string_views(warnings@) =~= string_views(old_warnings).push(w@));
                    assert(spec_parse_list(contents@) =~= models(items@));
                    assert(spec_skipped_warnings(contents@) =~= string_views(warnings@));
                }
            },
        }
    } else {
        proof {
            assert(contents@.skip(start as int) =~= Seq::<char>::empty());
        }
    }
    (items, warnings)
}

/// Parses a whole stored text, skipping unparsable lines.
pub fn parse_todo_list(contents: String) -> (items: Vec<TodoItem>)
    ensures
        models(items@) == spec_parse_list(contents@),
{
    let (items, _warnings) = parse_todo_list_report(contents.as_str());
    items
}

/// Renders one item as its stored line.
pub fn todo_item_to_string(item: &TodoItem) -> (r: String)
    ensures
        r@ == spec_format_item(item@),
{
    let mut out = if item.completed {
        String::from_str("[x] ")
    } else {
        String::from_str("[ ] ")
    };
    proof {
        reveal_strlit("[x] ");
        reveal_strlit("[ ] ");
        assert("[x] "@ =~= done_prefix());
        assert("[ ] "@ =~= pending_prefix());
    }
    out.append(item.description.as_str());
    out
}

/// An item's description fits on one stored line: it contains no newline.
pub open spec fn item_wf(m: ItemModel) -> bool {
    !m.description.contains('\n')
}

/// The stored text of a whole list: one line per item, joined with `'\n'`,
/// no trailing newline.
pub open spec fn spec_format_list(items: Seq<ItemModel>) -> Seq<char>
    decreases items.len(),
{
    if items.len() == 0 {
        seq![]
    } else if items.len() == 1 {
        spec_format_item(items[0])
    } else {
        spec_format_item(items[0]) + seq!['\n'] + spec_format_list(items.skip(1))
    }
}

/// Appending one item to a list appends its line, behind a separating
/// newline when the list was not empty.
pub proof fn lemma_format_snoc(items: Seq<ItemModel>, m: ItemModel)
    ensures
        items.len() == 0 ==> spec_format_list(items.push(m)) == spec_format_item(m),
        items.len() > 0 ==> spec_format_list(items.push(m)) == spec_format_list(items)
            + seq!['\n'] + spec_format_item(m),
    decreases items.len(),
{
    let p = items.push(m);
    if items.len() == 0 {
        assert(p[0] == m);
        assert(spec_format_list(p) =~= spec_format_item(m));
    } else {
        assert(p[0] == items[0]);
        assert(p.skip(1) =~= items.skip(1).push(m));
        lemma_format_snoc(items.skip(1), m);
        assert(spec_format_list(p) =~= spec_format_list(items) + seq!['\n']
            + spec_format_item(m));
    }
}

/// Renders a whole list as its stored text.
pub fn todo_list_to_string(todo_list: &[TodoItem]) -> (r: String)
    ensures
        r@ == spec_format_list(models(todo_list@)),
{
    let mut out = String::new();
    let len = todo_list.len();
    let mut i: usize = 0;
    proof {
        assert(models(todo_list@).take(0) =~= Seq::<ItemModel>::empty());
        assert(spec_format_list(Seq::<ItemModel>::empty()) =~= Seq::<char>::empty());
    }
    while i < len
        invariant
            i <= len,
            len == todo_list@.len(),
            out@ =~= spec_format_list(models(todo_list@).take(i as int)),
        decreases len - i,
    {
        let line = todo_item_to_string(&todo_list[i]);
        if i > 0 {
            out.append("\n");
        }
        out.append(line.as_str());
        proof {
            reveal_strlit("\n");
            assert("\n"@ =~= seq!['\n']);
            let ms = models(todo_list@);
            assert(ms[i as int] == todo_list@[i as int]@);
            assert(ms.take(i + 1) =~= ms.take(i as int).push(ms[i as int]));
            lemma_format_snoc(ms.take(i as int), ms[i as int]);
            assert(out@ =~= spec_format_list(ms.take(i + 1)));
        }
        i = i + 1;
    }
    proof {
        assert(models(todo_list@).take(len as int) =~= models(todo_list@));
    }
    out
}

/// Parsing the rendering of an item recovers the item exactly: the line
/// opens with the status prefix the flag selects, and the description is
/// taken verbatim from the fifth character on.
pub proof fn lemma_parse_format_item(m: ItemModel)
    ensures
        spec_parse_line(spec_format_item(m)) == Some(m),
{
    let t = spec_format_item(m);
    assert(t.len() >= 4);
    assert(t.subrange(0, 4) =~= status_prefix(m.completed));
    assert(done_prefix()[1] == 'x' && pending_prefix()[1] == ' ');
    if m.completed {
        assert(t.skip(4) =~= m.description);
    } else {
        assert(t.subrange(0, 4) != done_prefix());
        assert(t.skip(4) =~= m.description);
    }
}

/// A rendered line contains a newline only where the description does.
proof fn lemma_format_item_newlines(m: ItemModel)
    requires
        item_wf(m),
    ensures
        forall|k: int| 0 <= k < spec_format_item(m).len() ==> spec_format_item(m)[k] != '\n',
{
    let t = spec_format_item(m);
    assert forall|k: int| 0 <= k < t.len() implies t[k] != '\n' by {
        if k >= 4 {
            assert(t[k] == m.description[k - 4]);
            assert(!m.description.contains('\n'));
        } else {
            assert(t[k] == status_prefix(m.completed)[k]);
        }
    }
}

/// Parsed items are well formed: a description taken from one line of
/// the stored text cannot contain a newline.
pub proof fn lemma_parse_list_wf(text: Seq<char>)
    ensures
        forall|k: int| 0 <= k < spec_parse_list(text).len() ==> item_wf(
            #[trigger] spec_parse_list(text)[k],
        ),
    decreases text.len(),
{
    if text.len() != 0 {
        lemma_line_len_bounds(text);
        let j = line_len(text) as int;
        let line = text.take(j);
        let rest = if j == text.len() {
            Seq::<char>::empty()
        } else {
            text.skip(j + 1)
        };
        lemma_parse_list_wf(rest);
        match spec_parse_line(line) {
            Some(m) => {
                assert(!m.description.contains('\n')) by {
                    if m.description.contains('\n') {
                        let i0 = choose|i0: int|
                            0 <= i0 < m.description.len() && m.description[i0] == '\n';
                        assert(line[i0 + 4] == '\n');
                        assert(text[i0 + 4] == '\n');
                    }
                }
                assert forall|k: int| 0 <= k < spec_parse_list(text).len() implies item_wf(
                    spec_parse_list(text)[k],
                ) by {
                    if k > 0 {
                        assert(spec_parse_list(text)[k] == spec_parse_list(rest)[k - 1]);
                    }
                }
            },
            None => {},
        }
    }
}

/// Round trip for a whole list: parsing the rendered text of well-formed
/// items (descriptions free of newlines) reproduces the items, in order
/// and content, with nothing skipped.
pub proof fn lemma_list_round_trip(items: Seq<ItemModel>)
    requires
        forall|k: int| 0 <= k < items.len() ==> item_wf(#[trigger] items[k]),
    ensures
        spec_parse_list(spec_format_list(items)) == items,
        spec_skipped_warnings(spec_format_list(items)) == Seq::<Seq<char>>::empty(),
    decreases items.len(),
{
    let t = spec_format_list(items);
    if items.len() == 0 {
        assert(spec_parse_list(t) =~= items);
        assert(spec_skipped_warnings(t) =~= Seq::<Seq<char>>::empty());
    } else if items.len() == 1 {
        lemma_format_item_newlines(items[0]);
        lemma_line_len_at(t, t.len() as int);
        assert(t.take(t.len() as int) =~= t);
        lemma_parse_format_item(items[0]);
        assert(spec_parse_list(Seq::<char>::empty()) =~= Seq::<ItemModel>::empty());
        assert(spec_skipped_warnings(Seq::<char>::empty()) =~= Seq::<Seq<char>>::empty());
        assert(spec_parse_list(t) =~= items);
        assert(spec_skipped_warnings(t) =~= Seq::<Seq<char>>::empty());
    } else {
        let head = spec_format_item(items[0]);
        let j = head.len() as int;
        lemma_format_item_newlines(items[0]);
        assert(t[j] == '\n');
        assert forall|k: int| 0 <= k < j implies t[k] != '\n' by {
            assert(t[k] == head[k]);
        }
        lemma_line_len_at(t, j);
        assert(t.take(j) =~= head);
        assert(t.skip(j + 1) =~= spec_format_list(items.skip(1)));
        lemma_parse_format_item(items[0]);
        lemma_list_round_trip(items.skip(1));
        assert(spec_parse_list(t) =~= items);
        assert(spec_skipped_warnings(t) =~= Seq::<Seq<char>>::empty());
    }
}

} // verus!
