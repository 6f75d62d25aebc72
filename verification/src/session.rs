//! The interactive editing session: a numbered menu over an in-memory
//! todo list.
//!
//! The session is a state machine. Each step takes one line of user input
//! and yields text to print, and possibly a warning to log; the driving
//! loop performs the reads and writes. The list is mutated in place and
//! only serialized back to text when the session exits.

use vstd::prelude::*;

use crate::codec::ItemModel;
use crate::codec::TodoItem;
use crate::codec::models;
use crate::codec::spec_format_item;
use crate::codec::spec_parse_list;
use crate::codec::spec_skipped_warnings;
use crate::codec::string_views;
use crate::codec::parse_todo_list_report;
use crate::codec::todo_item_to_string;
use crate::codec::todo_list_to_string;

verus! {

/// The decimal digit characters, indexed by value.
pub open spec fn digit_char(d: nat) -> char {
    if d == 0 {
        '0'
    } else if d == 1 {
        '1'
    } else if d == 2 {
        '2'
    } else if d == 3 {
        '3'
    } else if d == 4 {
        '4'
    } else if d == 5 {
        '5'
    } else if d == 6 {
        '6'
    } else if d == 7 {
        '7'
    } else if d == 8 {
        '8'
    } else {
        '9'
    }
}

pub open spec fn is_digit(c: char) -> bool {
    c == '0' || c == '1' || c == '2' || c == '3' || c == '4' || c == '5' || c == '6' || c == '7'
        || c == '8' || c == '9'
}

/// The value of a digit character.
pub open spec fn digit_val(c: char) -> nat {
    if c == '0' {
        0
    } else if c == '1' {
        1
    } else if c == '2' {
        2
    } else if c == '3' {
        3
    } else if c == '4' {
        4
    } else if c == '5' {
        5
    } else if c == '6' {
        6
    } else if c == '7' {
        7
    } else if c == '8' {
        8
    } else {
        9
    }
}

/// The usual decimal rendering of `n`: no sign, no leading zero except
/// for zero itself.
pub open spec fn spec_decimal(n: nat) -> Seq<char>
    decreases n,
{
    if n < 10 {
        seq![digit_char(n)]
    } else {
        spec_decimal(n / 10).push(digit_char(n % 10))
    }
}

/// Appends the decimal rendering of `n` to `out`.
fn push_decimal(out: &mut String, n: usize)
    ensures
        final(out)@ == old(out)@ + spec_decimal(n as nat),
    decreases n,
{
    if n >= 10 {
        push_decimal(out, n / 10);
    }
    let ghost mid = out@;
    let d = n % 10;
    let piece: &str = if d == 0 {
        "0"
    } else if d == 1 {
        "1"
    } else if d == 2 {
        "2"
    } else if d == 3 {
        "3"
    } else if d == 4 {
        "4"
    } else if d == 5 {
        "5"
    } else if d == 6 {
        "6"
    } else if d == 7 {
        "7"
    } else if d == 8 {
        "8"
    } else {
        "9"
    };
    out.append(piece);
    proof {
        reveal_strlit("0");
        reveal_strlit("1");
        reveal_strlit("2");
        reveal_strlit("3");
        reveal_strlit("4");
        reveal_strlit("5");
        reveal_strlit("6");
        reveal_strlit("7");
        reveal_strlit("8");
        reveal_strlit("9");
        assert(piece@ =~= seq![digit_char((n % 10) as nat)]);
        if n < 10 {
            assert(n % 10 == n);
            assert(out@ =~= old(out)@ + spec_decimal(n as nat));
        } else {
            assert(mid == old(out)@ + spec_decimal((n / 10) as nat));
            assert(out@ =~= old(out)@ + spec_decimal(n as nat));
        }
    }
}

/// Characters that surrounding-whitespace trimming removes.
pub open spec fn is_space(c: char) -> bool {
    c == ' ' || c == '\t' || c == '\r' || c == '\n'
}

fn is_space_char(c: char) -> (r: bool)
    ensures
        r == is_space(c),
{
    c == ' ' || c == '\t' || c == '\r' || c == '\n'
}

/// `s` without its leading whitespace.
pub open spec fn trim_front(s: Seq<char>) -> Seq<char>
    decreases s.len(),
{
    if s.len() > 0 && is_space(s[0]) {
        trim_front(s.skip(1))
    } else {
        s
    }
}

/// `s` without its trailing whitespace.
pub open spec fn trim_back(s: Seq<char>) -> Seq<char>
    decreases s.len(),
{
    if s.len() > 0 && is_space(s.last()) {
        trim_back(s.drop_last())
    } else {
        s
    }
}

/// `s` without its surrounding whitespace.
pub open spec fn spec_trim(s: Seq<char>) -> Seq<char> {
    trim_back(trim_front(s))
}

pub open spec fn all_digits(s: Seq<char>) -> bool {
    forall|k: int| 0 <= k < s.len() ==> is_digit(#[trigger] s[k])
}

/// The value of a digit string, most significant digit first.
pub open spec fn digits_val(s: Seq<char>) -> nat
    decreases s.len(),
{
    if s.len() == 0 {
        0
    } else {
        digits_val(s.drop_last()) * 10 + digit_val(s.last())
    }
}

/// A longer digit string never has a smaller value.
proof fn lemma_digits_val_monotone(s: Seq<char>, k: int)
    requires
        0 <= k <= s.len(),
    ensures
        digits_val(s) >= digits_val(s.take(k)),
    decreases s.len() - k,
{
    if k == s.len() {
        assert(s.take(k) =~= s);
    } else {
        assert(s.take(k + 1).drop_last() =~= s.take(k));
        assert(s.take(k + 1).last() == s[k]);
        assert(digits_val(s.take(k + 1)) == digits_val(s.take(k)) * 10 + digit_val(s[k]));
        lemma_digits_val_monotone(s, k + 1);
    }
}

/// What a menu input denotes: the value of the input once trimmed of
/// surrounding whitespace, provided what is left is all digits, not
/// empty, and in range; anything else denotes nothing.
pub open spec fn spec_selection(input: Seq<char>) -> Option<u32> {
    let t = spec_trim(input);
    if t.len() > 0 && all_digits(t) && digits_val(t) <= u32::MAX {
        Some(digits_val(t) as u32)
    } else {
        None
    }
}

/// Reads one line of user input as an unsigned menu selection.
pub fn parse_selection(input: &str) -> (r: Option<u32>)
    ensures
        r == spec_selection(input@),
{
    let len = input.unicode_len();
    let mut lo: usize = 0;
    let mut hi: usize = len;
    proof {
        assert(input@.skip(0) =~= input@);
    }
    while lo < len && is_space_char(input.get_char(lo))
        invariant
            lo <= len,
            len == input@.len(),
            trim_front(input@) == trim_front(input@.skip(lo as int)),
        decreases len - lo,
    {
        proof {
            let sk = input@.skip(lo as int);
            assert(sk[0] == input@[lo as int]);
            assert(sk.skip(1) =~= input@.skip(lo + 1));
        }
        lo = lo + 1;
    }
    proof {
        assert(trim_front(input@) == input@.skip(lo as int));
        assert(input@.subrange(lo as int, len as int) =~= input@.skip(lo as int));
    }
    while hi > lo && is_space_char(input.get_char(hi - 1))
        invariant
            lo <= hi <= len,
            len == input@.len(),
            trim_front(input@) == input@.skip(lo as int),
            spec_trim(input@) == trim_back(input@.subrange(lo as int, hi as int)),
        decreases hi,
    {
        proof {
            let s = input@.subrange(lo as int, hi as int);
            assert(s.last() == input@[hi - 1]);
            assert(s.drop_last() =~= input@.subrange(lo as int, hi - 1));
        }
        hi = hi - 1;
    }
    let ghost t = spec_trim(input@);
    proof {
        assert(t == input@.subrange(lo as int, hi as int));
    }
    if lo == hi {
        proof {
            assert(t.len() == 0);
        }
        return None;
    }
    let mut val: u32 = 0;
    let mut i: usize = lo;
    proof {
        assert(t.take(0) =~= Seq::<char>::empty());
    }
    while i < hi
        invariant
            lo <= i <= hi <= len,
            len == input@.len(),
            t == input@.subrange(lo as int, hi as int),
            t == spec_trim(input@),
            forall|k: int| 0 <= k < i - lo ==> is_digit(#[trigger] t[k]),
            val as nat == digits_val(t.take(i - lo)),
        decreases hi - i,
    {
        let c = input.get_char(i);
        proof {
            assert(t[i - lo] == input@[i as int]);
        }
        let d: u32 = if c == '0' {
            0
        } else if c == '1' {
            1
        } else if c == '2' {
            2
        } else if c == '3' {
            3
        } else if c == '4' {
            4
        } else if c == '5' {
            5
        } else if c == '6' {
            6
        } else if c == '7' {
            7
        } else if c == '8' {
            8
        } else if c == '9' {
            9
        } else {
            proof {
                assert(!is_digit(t[i - lo]));
            }
            return None;
        };
        proof {
            assert(is_digit(c) && digit_val(c) == d as nat);
            assert(t.take(i - lo + 1).drop_last() =~= t.take(i - lo));
            assert(t.take(i - lo + 1).last() == t[i - lo]);
        }
        let scaled = match val.checked_mul(10) {
            Some(v) => v,
            None => {
                proof {
                    assert(digits_val(t.take(i - lo + 1)) > u32::MAX);
                    lemma_digits_val_monotone(t, i - lo + 1);
                }
                return None;
            },
        };
        val = match scaled.checked_add(d) {
            Some(v) => v,
            None => {
                proof {
                    assert(digits_val(t.take(i - lo + 1)) > u32::MAX);
                    lemma_digits_val_monotone(t, i - lo + 1);
                }
                return None;
            },
        };
        i = i + 1;
    }
    proof {
        assert(t.take(i - lo) =~= t);
        assert(all_digits(t));
    }
    Some(val)
}

/// The fixed text shown in place of an empty list body.
pub open spec fn empty_list_message() -> Seq<char> {
    "The todo list is empty."@
}

/// One display line: the 1-based position, a dot, and the item's stored
/// form.
pub open spec fn spec_numbered_line(m: ItemModel, n: nat) -> Seq<char> {
    spec_decimal(n) + ". "@ + spec_format_item(m)
}

/// The display lines of a list whose first item is shown with number `n`,
/// joined with `'\n'`, no trailing newline.
pub open spec fn spec_render_lines(items: Seq<ItemModel>, n: nat) -> Seq<char>
    decreases items.len(),
{
    if items.len() == 0 {
        seq![]
    } else if items.len() == 1 {
        spec_numbered_line(items[0], n)
    } else {
        spec_numbered_line(items[0], n) + seq!['\n'] + spec_render_lines(items.skip(1), n + 1)
    }
}

/// What viewing the list prints: its numbered display lines, or the fixed
/// empty-list message when there are none.
pub open spec fn spec_render_list(items: Seq<ItemModel>) -> Seq<char> {
    if items.len() == 0 {
        empty_list_message()
    } else {
        spec_render_lines(items, 1)
    }
}

proof fn lemma_render_snoc(items: Seq<ItemModel>, m: ItemModel, n: nat)
    ensures
        items.len() == 0 ==> spec_render_lines(items.push(m), n) == spec_numbered_line(m, n),
        items.len() > 0 ==> spec_render_lines(items.push(m), n) == spec_render_lines(items, n)
            + seq!['\n'] + spec_numbered_line(m, n + items.len()),
    decreases items.len(),
{
    let p = items.push(m);
    if items.len() == 0 {
        assert(p[0] == m);
        assert(spec_render_lines(p, n) =~= spec_numbered_line(m, n));
    } else {
        assert(p[0] == items[0]);
        assert(p.skip(1) =~= items.skip(1).push(m));
        lemma_render_snoc(items.skip(1), m, n + 1);
        assert(spec_render_lines(p, n) =~= spec_render_lines(items, n) + seq!['\n']
            + spec_numbered_line(m, n + items.len()));
    }
}

/// Renders the list for display: each item on its own line behind its
/// 1-based position, or the fixed empty-list message.
pub fn render_todo_list(todo_list: &[TodoItem]) -> (r: String)
    ensures
        r@ == spec_render_list(models(todo_list@)),
{
    let len = todo_list.len();
    if len == 0 {
        return String::from_str("The todo list is empty.");
    }
    let mut out = String::new();
    let mut i: usize = 0;
    proof {
        assert(models(todo_list@).take(0) =~= Seq::<ItemModel>::empty());
        assert(spec_render_lines(Seq::<ItemModel>::empty(), 1) =~= Seq::<char>::empty());
    }
    while i < len
        invariant
            i <= len,
            len == todo_list@.len(),
            out@ =~= spec_render_lines(models(todo_list@).take(i as int), 1),
        decreases len - i,
    {
        if i > 0 {
            out.append("\n");
        }
        push_decimal(&mut out, i + 1);
        out.append(". ");
        let line = todo_item_to_string(&todo_list[i]);
        out.append(line.as_str());
        proof {
            reveal_strlit("\n");
            assert("\n"@ =~= seq!['\n']);
            let ms = models(todo_list@);
            assert(ms[i as int] == todo_list@[i as int]@);
            assert(ms.take(i + 1) =~= ms.take(i as int).push(ms[i as int]));
            lemma_render_snoc(ms.take(i as int), ms[i as int], 1);
            assert(out@ =~= spec_render_lines(ms.take(i + 1), 1));
        }
        i = i + 1;
    }
    proof {
        assert(models(todo_list@).take(len as int) =~= models(todo_list@));
    }
    out
}

/// The fixed menu shown before each selection.
pub open spec fn spec_menu_text() -> Seq<char> {
    "1. View todo list\n2. Add a new todo\n3. Remove a todo\n4. Toggle todo completion\n5. Exit"@
}

pub fn menu_text() -> (r: String)
    ensures
        r@ == spec_menu_text(),
{
    String::from_str(
        "1. View todo list\n2. Add a new todo\n3. Remove a todo\n4. Toggle todo completion\n5. Exit",
    )
}

/// The warning reported for a menu line that selects nothing.
pub open spec fn invalid_selection_message(input: Seq<char>) -> Seq<char> {
    "Invalid menu selection: "@ + input
}

/// The warning reported for an index line that names no item.
pub open spec fn invalid_index_message(input: Seq<char>) -> Seq<char> {
    "Invalid todo index: "@ + input
}

/// The line printed when the session exits.
pub open spec fn exiting_message() -> Seq<char> {
    "Exiting..."@
}

fn make_invalid_selection_message(input: &str) -> (r: String)
    ensures
        r@ == invalid_selection_message(input@),
{
    let m = String::from_str("Invalid menu selection: ");
    m.concat(input)
}

fn make_invalid_index_message(input: &str) -> (r: String)
    ensures
        r@ == invalid_index_message(input@),
{
    let m = String::from_str("Invalid todo index: ");
    m.concat(input)
}

/// Where the session stands: waiting at the menu, waiting for the input
/// that a menu action asked for, or done.
#[derive(PartialEq, Eq, Structural, Clone, Copy, Debug)]
pub enum Mode {
    Menu,
    AddPrompt,
    RemovePrompt,
    TogglePrompt,
    Exited,
}

/// One interactive editing session: the in-memory list and where the
/// session stands.
pub struct Session {
    pub items: Vec<TodoItem>,
    pub mode: Mode,
}

/// Mathematical model of a [`Session`].
pub ghost struct SessionModel {
    pub items: Seq<ItemModel>,
    pub mode: Mode,
}

impl View for Session {
    type V = SessionModel;

    open spec fn view(&self) -> SessionModel {
        SessionModel { items: models(self.items@), mode: self.mode }
    }
}

/// What one step of the session hands back: text for the console and
/// possibly a warning for the log.
pub struct StepResult {
    pub output: String,
    pub warning: Option<String>,
}

/// Model of a step's outcome: the state afterwards and both texts.
pub ghost struct StepModel {
    pub state: SessionModel,
    pub output: Seq<char>,
    pub warning: Option<Seq<char>>,
}

/// The item that toggling flips.
pub open spec fn spec_toggled(m: ItemModel) -> ItemModel {
    ItemModel { completed: !m.completed, description: m.description }
}

/// A menu-mode step: dispatch on the selected number; anything
/// unselectable is ignored with a warning.
pub open spec fn spec_menu_step(s: SessionModel, input: Seq<char>) -> StepModel {
    match spec_selection(input) {
        Some(n) => if n == 1 {
            StepModel { state: s, output: spec_render_list(s.items), warning: None }
        } else if n == 2 {
            StepModel {
                state: SessionModel { items: s.items, mode: Mode::AddPrompt },
                output: Seq::<char>::empty(),
                warning: None,
            }
        } else if n == 3 {
            StepModel {
                state: SessionModel { items: s.items, mode: Mode::RemovePrompt },
                output: Seq::<char>::empty(),
                warning: None,
            }
        } else if n == 4 {
            StepModel {
                state: SessionModel { items: s.items, mode: Mode::TogglePrompt },
                output: Seq::<char>::empty(),
                warning: None,
            }
        } else if n == 5 {
            StepModel {
                state: SessionModel { items: s.items, mode: Mode::Exited },
                output: exiting_message(),
                warning: None,
            }
        } else {
            StepModel {
                state: s,
                output: Seq::<char>::empty(),
                warning: Some(invalid_selection_message(input)),
            }
        },
        None => StepModel {
            state: s,
            output: Seq::<char>::empty(),
            warning: Some(invalid_selection_message(input)),
        },
    }
}

/// A step that consumes the index a remove or toggle action asked for.
/// A valid 1-based index acts on that item; anything else is rejected
/// with a warning. Either way the session returns to the menu.
pub open spec fn spec_index_step(s: SessionModel, input: Seq<char>, is_remove: bool) -> StepModel {
    match spec_selection(input) {
        Some(n) => if 1 <= n && n as int <= s.items.len() {
            let i = n as int - 1;
            if is_remove {
                StepModel {
                    state: SessionModel { items: s.items.remove(i), mode: Mode::Menu },
                    output: Seq::<char>::empty(),
                    warning: None,
                }
            } else {
                StepModel {
                    state: SessionModel {
                        items: s.items.update(i, spec_toggled(s.items[i])),
                        mode: Mode::Menu,
                    },
                    output: Seq::<char>::empty(),
                    warning: None,
                }
            }
        } else {
            StepModel {
                state: SessionModel { items: s.items, mode: Mode::Menu },
                output: Seq::<char>::empty(),
                warning: Some(invalid_index_message(input)),
            }
        },
        None => StepModel {
            state: SessionModel { items: s.items, mode: Mode::Menu },
            output: Seq::<char>::empty(),
            warning: Some(invalid_index_message(input)),
        },
    }
}

/// The session's transition function: what one line of input does in
/// each mode. A step in `Exited` changes nothing.
pub open spec fn spec_step(s: SessionModel, input: Seq<char>) -> StepModel {
    match s.mode {
        Mode::Menu => spec_menu_step(s, input),
        Mode::AddPrompt => StepModel {
            state: SessionModel {
                items: s.items.push(ItemModel { completed: false, description: input }),
                mode: Mode::Menu,
            },
            output: Seq::<char>::empty(),
            warning: None,
        },
        Mode::RemovePrompt => spec_index_step(s, input, true),
        Mode::TogglePrompt => spec_index_step(s, input, false),
        Mode::Exited => StepModel { state: s, output: Seq::<char>::empty(), warning: None },
    }
}

/// The text the session shows before reading its next line of input.
pub open spec fn spec_prompt(mode: Mode) -> Seq<char> {
    match mode {
        Mode::Menu => spec_menu_text(),
        Mode::AddPrompt => "Enter the todo description:"@,
        Mode::RemovePrompt => "Enter the number of the todo to remove:"@,
        Mode::TogglePrompt => "Enter the number of the todo to toggle:"@,
        Mode::Exited => Seq::<char>::empty(),
    }
}

/// Every description in the session fits on one stored line.
pub open spec fn session_wf(s: SessionModel) -> bool {
    forall|k: int| 0 <= k < s.items.len() ==> crate::codec::item_wf(#[trigger] s.items[k])
}

impl Session {
    /// Opens a session on a stored text: the parsed items, one warning
    /// per skipped line, and the session waiting at the menu.
    pub fn from_text(contents: &str) -> (r: (Session, Vec<String>))
        ensures
            r.0@.items == spec_parse_list(contents@),
            r.0@.mode == Mode::Menu,
            string_views(r.1@) == spec_skipped_warnings(contents@),
            session_wf(r.0@),
    {
        let (items, warnings) = parse_todo_list_report(contents);
        proof {
            crate::codec::lemma_parse_list_wf(contents@);
        }
        (Session { items, mode: Mode::Menu }, warnings)
    }

    /// Whether the session still wants input.
    pub fn is_running(&self) -> (r: bool)
        ensures
            r == (self@.mode != Mode::Exited),
    {
        match self.mode {
            Mode::Exited => false,
            _ => true,
        }
    }

    /// The text to show before reading the next line of input.
    pub fn prompt(&self) -> (r: String)
        ensures
            r@ == spec_prompt(self@.mode),
    {
        match self.mode {
            Mode::Menu => menu_text(),
            Mode::AddPrompt => String::from_str("Enter the todo description:"),
            Mode::RemovePrompt => String::from_str("Enter the number of the todo to remove:"),
            Mode::TogglePrompt => String::from_str("Enter the number of the todo to toggle:"),
            Mode::Exited => String::new(),
        }
    }

    /// Feeds the session one line of input and follows [`spec_step`]:
    /// the returned text goes to the console, the warning, if any, to
    /// the log.
    pub fn step(&mut self, input: &str) -> (r: StepResult)
        requires
            !input@.contains('\n'),
        ensures
            ({
                let st = spec_step(old(self)@, input@);
                &&& final(self)@ == st.state
                &&& r.output@ == st.output
                &&& match r.warning {
                    Some(w) => st.warning == Some(w@),
                    None => st.warning is None,
                }
            }),
            session_wf(old(self)@) ==> session_wf(final(self)@),
    {
        match self.mode {
            Mode::Menu => {
                match parse_selection(input) {
                    Some(n) => {
                        if n == 1 {
                            let output = render_todo_list(self.items.as_slice());
                            StepResult { output, warning: None }
                        } else if n == 2 {
                            self.mode = Mode::AddPrompt;
                            StepResult { output: String::new(), warning: None }
                        } else if n == 3 {
                            self.mode = Mode::RemovePrompt;
                            StepResult { output: String::new(), warning: None }
                        } else if n == 4 {
                            self.mode = Mode::TogglePrompt;
                            StepResult { output: String::new(), warning: None }
                        } else if n == 5 {
                            self.mode = Mode::Exited;
                            StepResult {
                                output: String::from_str("Exiting..."),
                                warning: None,
                            }
                        } else {
                            StepResult {
                                output: String::new(),
                                warning: Some(make_invalid_selection_message(input)),
                            }
                        }
                    },
                    None => StepResult {
                        output: String::new(),
                        warning: Some(make_invalid_selection_message(input)),
                    },
                }
            },
            Mode::AddPrompt => {
                let ghost old_items = self.items@;
                self.items.push(TodoItem { completed: false, description: input.to_owned() });
                self.mode = Mode::Menu;
                proof {
                    assert(models(self.items@) =~= models(old_items).push(
                        ItemModel { completed: false, description: input@ },
                    ));
                }
                StepResult { output: String::new(), warning: None }
            },
            Mode::RemovePrompt => {
                self.mode = Mode::Menu;
                match parse_selection(input) {
                    Some(n) => {
                        if 1 <= n && (n as usize) <= self.items.len() {
                            let idx = (n as usize) - 1;
                            let ghost old_items = self.items@;
                            let _removed = self.items.remove(idx);
                            proof {
                                assert(models(self.items@) =~= models(old_items).remove(
                                    idx as int,
                                ));
                            }
                            StepResult { output: String::new(), warning: None }
                        } else {
                            StepResult {
                                output: String::new(),
                                warning: Some(make_invalid_index_message(input)),
                            }
                        }
                    },
                    None => StepResult {
                        output: String::new(),
                        warning: Some(make_invalid_index_message(input)),
                    },
                }
            },
            Mode::TogglePrompt => {
                self.mode = Mode::Menu;
                match parse_selection(input) {
                    Some(n) => {
                        if 1 <= n && (n as usize) <= self.items.len() {
                            let idx = (n as usize) - 1;
                            let ghost old_items = self.items@;
                            let item = self.items.remove(idx);
                            let toggled = TodoItem {
                                completed: !item.completed,
                                description: item.description,
                            };
                            self.items.insert(idx, toggled);
                            proof {
                                assert(models(self.items@) =~= models(old_items).update(
                                    idx as int,
                                    spec_toggled(old_items[idx as int]@),
                                ));
                            }
                            StepResult { output: String::new(), warning: None }
                        } else {
                            StepResult {
                                output: String::new(),
                                warning: Some(make_invalid_index_message(input)),
                            }
                        }
                    },
                    None => StepResult {
                        output: String::new(),
                        warning: Some(make_invalid_index_message(input)),
                    },
                }
            },
            Mode::Exited => StepResult { output: String::new(), warning: None },
        }
    }

    /// The text the session writes back to storage on exit.
    pub fn final_text(&self) -> (r: String)
        ensures
            r@ == crate::codec::spec_format_list(self@.items),
    {
        todo_list_to_string(self.items.as_slice())
    }
}

} // verus!

