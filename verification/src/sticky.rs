//! Windows tagged for reuse: parsing tmux's listing and choosing the window
//! that a launch reuses.

use vstd::prelude::*;

use crate::error::{ErrorView, IntmuxError};
use crate::model::{file_name_chars, path_file_name};
use crate::target::{
    is_ascii_digit, is_tmux_id, lemma_split_append_field, lemma_split_without_sep, tmux_id_result,
    CreateTarget, PaneId, TargetView, WindowId,
};
use crate::text::{
    chars_eq, chars_of, debug_quote, debug_text, decimal_digits, digit_char, split_chars, split_on,
    string_from_chars, views_of,
};

verus! {

/// The value of a non-empty sequence of ASCII digits.
pub open spec fn digits_value(digits: Seq<char>) -> nat
    decreases digits.len(),
{
    if digits.len() == 0 {
        0
    } else {
        digits_value(digits.drop_last()) * 10 + ((digits.last() as u32) - 0x30) as nat
    }
}

/// The digits of an unsigned decimal: the text after an optional `+`.
pub open spec fn unsigned_digits(raw: Seq<char>) -> Seq<char> {
    if raw.len() > 0 && raw[0] == '+' {
        raw.drop_first()
    } else {
        raw
    }
}

/// Every character is an ASCII digit.
pub open spec fn all_ascii_digits(s: Seq<char>) -> bool {
    forall|i: int| 0 <= i < s.len() ==> is_ascii_digit(#[trigger] s[i])
}

/// What `str::parse::<usize>` accepts: an optional `+`, then one or more
/// ASCII digits whose value fits in a `usize`.
pub open spec fn usize_value(raw: Seq<char>) -> Option<usize> {
    let digits = unsigned_digits(raw);
    if digits.len() > 0 && all_ascii_digits(digits) && digits_value(digits) <= usize::MAX {
        Some(digits_value(digits) as usize)
    } else {
        None
    }
}

/// Parses an unsigned decimal as `str::parse::<usize>` does.
pub fn parse_decimal_usize(raw: &[char]) -> (r: Option<usize>)
    ensures
        r == usize_value(raw@),
{
    let start: usize = if raw.len() > 0 && raw[0] == '+' { 1 } else { 0 };
    let ghost digits = unsigned_digits(raw@);
    assert(digits =~= raw@.subrange(start as int, raw@.len() as int));
    if start >= raw.len() {
        return None;
    }
    let mut value: usize = 0;
    let mut i: usize = start;
    while i < raw.len()
        invariant
            start <= i <= raw@.len(),
            start as int == (if raw@.len() > 0 && raw@[0] == '+' { 1int } else { 0int }),
            digits == unsigned_digits(raw@),
            digits == raw@.subrange(start as int, raw@.len() as int),
            forall|k: int| start <= k < i ==> is_ascii_digit(#[trigger] raw@[k]),
            value as nat == digits_value(raw@.subrange(start as int, i as int)),
        decreases raw.len() - i,
    {
        let c = raw[i];
        if !('0' <= c && c <= '9') {
            assert(digits[i - start] == c);
            assert(!is_ascii_digit(digits[i - start]));
            assert(!(forall|k: int| 0 <= k < digits.len() ==> is_ascii_digit(#[trigger] digits[k])));
            assert(usize_value(raw@) == None::<usize>);
            return None;
        }
        let d = (c as u32 - 0x30) as usize;
        let ghost prefix = raw@.subrange(start as int, i + 1);
        assert(prefix.drop_last() =~= raw@.subrange(start as int, i as int));
        assert(prefix.last() == c);
        assert(digits.take(i + 1 - start) =~= prefix);
        assert(digits_value(prefix) == value * 10 + d);
        match value.checked_mul(10) {
            None => {
                proof {
                    lemma_digits_value_grows(digits, (i + 1 - start) as int);
                }
                return None;
            },
            Some(scaled) => match scaled.checked_add(d) {
                None => {
                    proof {
                        lemma_digits_value_grows(digits, (i + 1 - start) as int);
                    }
                    return None;
                },
                Some(next) => {
                    value = next;
                },
            },
        }
        i = i + 1;
    }
    assert(raw@.subrange(start as int, raw@.len() as int) =~= digits);
    assert forall|k: int| 0 <= k < digits.len() implies is_ascii_digit(#[trigger] digits[k]) by {
        assert(digits[k] == raw@[k + start]);
    }
    Some(value)
}

/// A prefix's value never exceeds the whole's.
proof fn lemma_digits_value_grows(digits: Seq<char>, n: int)
    requires
        0 <= n <= digits.len(),
    ensures
        digits_value(digits.take(n)) <= digits_value(digits),
    decreases digits.len() - n,
{
    if n < digits.len() {
        lemma_digits_value_grows(digits, n + 1);
        assert(digits.take(n + 1).drop_last() =~= digits.take(n));
    } else {
        assert(digits.take(n) =~= digits);
    }
}

/// The context of every sticky window parse error.
pub open spec fn sticky_context() -> Seq<char> {
    "parse sticky tmux window"@
}

/// A parse error of the listing line `line`.
pub open spec fn sticky_error(message: Seq<char>, line: Seq<char>) -> ErrorView {
    ErrorView::UnexpectedTmuxOutput {
        context: sticky_context(),
        details: message + " in "@ + debug_text(line),
    }
}

/// What parsing field `i` of `parts` as a `usize` gives.
pub open spec fn usize_field(parts: Seq<Seq<char>>, i: int, label: Seq<char>, line: Seq<char>) -> Result<
    usize,
    ErrorView,
> {
    if parts.len() <= i {
        Err(sticky_error("missing "@ + label, line))
    } else {
        match usize_value(parts[i]) {
            Some(v) => Ok(v),
            None => Err(sticky_error("invalid "@ + label + " "@ + debug_text(parts[i]), line)),
        }
    }
}

/// A window that carries the reuse tag, as `list-windows` describes it.
#[derive(Clone, Debug, PartialEq, Eq)]
pub struct StickyWindow {
    pane_current_command: String,
    pane_dead: bool,
    pane_id: PaneId,
    window_id: WindowId,
    window_index: usize,
    window_panes: usize,
}

/// The abstract value of a [`StickyWindow`].
pub struct StickyView {
    /// `#{window_id}`.
    pub window_id: Seq<char>,
    /// `#{window_index}`.
    pub window_index: usize,
    /// `#{window_panes}`.
    pub window_panes: usize,
    /// `#{pane_id}` of the active pane.
    pub pane_id: Seq<char>,
    /// `#{pane_dead}`.
    pub pane_dead: bool,
    /// `#{pane_current_command}`.
    pub pane_current_command: Seq<char>,
}

impl View for StickyWindow {
    type V = StickyView;

    closed spec fn view(&self) -> StickyView {
        StickyView {
            window_id: self.window_id@,
            window_index: self.window_index,
            window_panes: self.window_panes,
            pane_id: self.pane_id@,
            pane_dead: self.pane_dead,
            pane_current_command: self.pane_current_command@,
        }
    }
}

/// What parsing one line of the listing
/// `#{window_id}\t#{window_index}\t#{window_panes}\t#{pane_id}\t#{pane_dead}\t#{pane_current_command}`
/// gives; fields are checked in order and the first fault is reported.
pub open spec fn sticky_result(line: Seq<char>) -> Result<StickyView, ErrorView> {
    let parts = split_on(line, '\t');
    match tmux_id_result(parts[0], '@', "window id"@) {
        Err(e) => Err(e),
        Ok(window_id) => match usize_field(parts, 1, "window index"@, line) {
            Err(e) => Err(e),
            Ok(window_index) => match usize_field(parts, 2, "window panes"@, line) {
                Err(e) => Err(e),
                Ok(window_panes) => if parts.len() <= 3 {
                    Err(sticky_error("missing pane id"@, line))
                } else {
                    match tmux_id_result(parts[3], '%', "pane id"@) {
                        Err(e) => Err(e),
                        Ok(pane_id) => if parts.len() <= 4 {
                            Err(sticky_error("missing pane dead flag"@, line))
                        } else if parts[4] != "0"@ && parts[4] != "1"@ {
                            Err(
                                sticky_error(
                                    "invalid pane dead flag "@ + debug_text(parts[4]),
                                    line,
                                ),
                            )
                        } else if parts.len() <= 5 {
                            Err(sticky_error("missing pane current command"@, line))
                        } else if parts.len() > 6 {
                            Err(sticky_error("too many sticky tmux window fields"@, line))
                        } else {
                            Ok(
                                StickyView {
                                    window_id,
                                    window_index,
                                    window_panes,
                                    pane_id,
                                    pane_dead: parts[4] == "1"@,
                                    pane_current_command: parts[5],
                                },
                            )
                        },
                    }
                },
            },
        },
    }
}

fn sticky_parse_error(message: String, line: &str) -> (e: IntmuxError)
    ensures
        e@ == sticky_error(message@, line@),
{
    let mut details = message;
    details.append(" in ");
    let quoted = debug_quote(line);
    details.append(quoted.as_str());
    IntmuxError::UnexpectedTmuxOutput { context: "parse sticky tmux window", details }
}

/// Parses field `i` as a `usize`.
fn parse_usize(parts: &Vec<Vec<char>>, i: usize, label: &str, line: &str) -> (r: Result<
    usize,
    IntmuxError,
>)
    ensures
        match usize_field(views_of(parts@), i as int, label@, line@) {
            Ok(v) => r == Ok::<usize, IntmuxError>(v),
            Err(e) => r is Err && r->Err_0@ == e,
        },
{
    assert(views_of(parts@).len() == parts@.len());
    if parts.len() <= i {
        let mut message = String::from_str("missing ");
        message.append(label);
        return Err(sticky_parse_error(message, line));
    }
    assert(views_of(parts@)[i as int] == parts@[i as int]@);
    match parse_decimal_usize(&parts[i]) {
        Some(v) => Ok(v),
        None => {
            let mut message = String::from_str("invalid ");
            message.append(label);
            message.append(" ");
            let raw = string_from_chars(&parts[i]);
            let quoted = debug_quote(raw.as_str());
            message.append(quoted.as_str());
            Err(sticky_parse_error(message, line))
        },
    }
}

impl StickyWindow {
    /// Parses one line of the tagged-window listing.
    pub fn parse(line: &str) -> (r: Result<StickyWindow, IntmuxError>)
        ensures
            match sticky_result(line@) {
                Ok(w) => r is Ok && r->Ok_0@ == w,
                Err(e) => r is Err && r->Err_0@ == e,
            },
    {
        let text = chars_of(line);
        let parts = split_chars(&text, '\t');
        let ghost pv = views_of(parts@);
        assert(pv.len() == parts@.len());
        assert(pv[0] == parts@[0]@);
        let window_text = string_from_chars(&parts[0]);
        let window_id = WindowId::parse(window_text.as_str())?;
        let window_index = parse_usize(&parts, 1, "window index", line)?;
        let window_panes = parse_usize(&parts, 2, "window panes", line)?;
        if parts.len() <= 3 {
            return Err(sticky_parse_error(String::from_str("missing pane id"), line));
        }
        assert(pv[3] == parts@[3]@);
        let pane_text = string_from_chars(&parts[3]);
        let pane_id = PaneId::parse(pane_text.as_str())?;
        if parts.len() <= 4 {
            return Err(sticky_parse_error(String::from_str("missing pane dead flag"), line));
        }
        assert(pv[4] == parts@[4]@);
        let zero: [char; 1] = ['0'];
        let one: [char; 1] = ['1'];
        proof {
            reveal_strlit("0");
            reveal_strlit("1");
        }
        assert(zero@ =~= "0"@);
        assert(one@ =~= "1"@);
        let is_zero = chars_eq(&parts[4], &zero);
        let is_one = chars_eq(&parts[4], &one);
        if !is_zero && !is_one {
            let mut message = String::from_str("invalid pane dead flag ");
            let raw = string_from_chars(&parts[4]);
            let quoted = debug_quote(raw.as_str());
            message.append(quoted.as_str());
            return Err(sticky_parse_error(message, line));
        }
        if parts.len() <= 5 {
            return Err(sticky_parse_error(String::from_str("missing pane current command"), line));
        }
        if parts.len() > 6 {
            return Err(
                sticky_parse_error(String::from_str("too many sticky tmux window fields"), line),
            );
        }
        assert(pv[5] == parts@[5]@);
        let pane_current_command = string_from_chars(&parts[5]);
        Ok(
            StickyWindow {
                pane_current_command,
                pane_dead: is_one,
                pane_id,
                window_id,
                window_index,
                window_panes,
            },
        )
    }

    /// The window and its active pane, as a launch target.
    pub fn into_target(self) -> (r: CreateTarget)
        ensures
            r@ == (TargetView { window_id: self@.window_id, pane_id: self@.pane_id }),
    {
        CreateTarget::new(self.pane_id, self.window_id)
    }

    /// Whether the window can take the command: a single live pane that is
    /// sitting at the default shell.
    pub fn is_reusable(&self, default_shell: &str) -> (r: bool)
        ensures
            r == is_reusable(self@, default_shell@),
    {
        self.window_panes == 1 && !self.pane_dead && chars_eq(
            &chars_of(self.pane_current_command.as_str()),
            &chars_of(default_shell),
        )
    }

    /// The window.
    pub fn window_id(&self) -> (r: &WindowId)
        ensures
            r@ == self@.window_id,
    {
        &self.window_id
    }

    /// The window's index in its session.
    pub fn window_index(&self) -> (r: usize)
        ensures
            r == self@.window_index,
    {
        self.window_index
    }
}

/// A single live pane running the default shell.
pub open spec fn is_reusable(w: StickyView, default_shell: Seq<char>) -> bool {
    w.window_panes == 1 && !w.pane_dead && w.pane_current_command == default_shell
}

// ---------------------------------------------------------------------------
// Choosing the window to reuse.

/// The views of a vector of windows.
pub open spec fn sticky_views(v: Seq<StickyWindow>) -> Seq<StickyView> {
    v.map_values(|w: StickyWindow| w@)
}

/// `w` placed after every window whose index is not larger (one step of a
/// stable sort).
pub open spec fn insert_by_index(sorted: Seq<StickyView>, w: StickyView) -> Seq<StickyView>
    decreases sorted.len(),
{
    if sorted.len() == 0 {
        seq![w]
    } else if sorted.last().window_index <= w.window_index {
        sorted.push(w)
    } else {
        insert_by_index(sorted.drop_last(), w).push(sorted.last())
    }
}

/// The windows stably sorted by window index (`sort_by_key`).
pub open spec fn sorted_by_index(s: Seq<StickyView>) -> Seq<StickyView>
    decreases s.len(),
{
    if s.len() == 0 {
        Seq::empty()
    } else {
        insert_by_index(sorted_by_index(s.drop_last()), s.last())
    }
}

/// The window indexes never decrease.
pub open spec fn index_ordered(s: Seq<StickyView>) -> bool {
    forall|i: int, j: int| 0 <= i <= j < s.len() ==> s[i].window_index <= s[j].window_index
}

proof fn lemma_insert_at(s: Seq<StickyView>, w: StickyView, p: int)
    requires
        index_ordered(s),
        0 <= p <= s.len(),
        forall|k: int| 0 <= k < p ==> s[k].window_index <= w.window_index,
        p == s.len() || s[p].window_index > w.window_index,
    ensures
        insert_by_index(s, w) == s.insert(p, w),
        index_ordered(s.insert(p, w)),
    decreases s.len(),
{
    if s.len() == 0 {
        assert(s.insert(p, w) =~= seq![w]);
    } else if s.last().window_index <= w.window_index {
        assert(p == s.len());
        assert(s.insert(p, w) =~= s.push(w));
    } else {
        assert(p < s.len());
        lemma_insert_at(s.drop_last(), w, p);
        assert(s.insert(p, w) =~= s.drop_last().insert(p, w).push(s.last()));
    }
    let t = s.insert(p, w);
    assert forall|i: int, j: int| 0 <= i <= j < t.len() implies t[i].window_index
        <= t[j].window_index by {
        if i < p && j < p {
        } else if i < p && j == p {
        } else if i < p {
            assert(t[j] == s[j - 1]);
        } else if i == p && j > p {
            assert(t[j] == s[j - 1]);
            assert(s[p].window_index <= s[j - 1].window_index);
        } else if i > p {
            assert(t[i] == s[i - 1]);
            assert(t[j] == s[j - 1]);
        }
    }
}

/// Stably sorts windows by their index.
pub fn sort_by_window_index(windows: Vec<StickyWindow>) -> (r: Vec<StickyWindow>)
    ensures
        sticky_views(r@) == sorted_by_index(sticky_views(windows@)),
        index_ordered(sticky_views(r@)),
{
    let ghost input = sticky_views(windows@);
    let mut sorted: Vec<StickyWindow> = Vec::new();
    let mut rest = windows;
    let mut taken: usize = 0;
    let n = rest.len();
    assert(sticky_views(sorted@) =~= sorted_by_index(input.take(0)));
    while taken < n
        invariant
            n == input.len(),
            taken <= n,
            rest@.len() == n - taken,
            forall|k: int| 0 <= k < rest@.len() ==> (#[trigger] rest@[k])@ == input[taken + k],
            sticky_views(sorted@) == sorted_by_index(input.take(taken as int)),
            index_ordered(sticky_views(sorted@)),
        decreases n - taken,
    {
        let w = rest.remove(0);
        assert(w@ == input[taken as int]);
        let mut p: usize = 0;
        while p < sorted.len() && sorted[p].window_index() <= w.window_index()
            invariant
                p <= sorted@.len(),
                forall|k: int| 0 <= k < p ==> (#[trigger] sorted@[k])@.window_index <= w@.window_index,
            decreases sorted.len() - p,
        {
            p = p + 1;
        }
        let ghost before = sticky_views(sorted@);
        proof {
            assert forall|k: int| 0 <= k < p implies before[k].window_index <= w@.window_index by {
                assert(before[k] == sorted@[k]@);
            }
            if p < sorted@.len() {
                assert(before[p as int] == sorted@[p as int]@);
            }
            lemma_insert_at(before, w@, p as int);
            let t = input.take(taken + 1);
            assert(t.drop_last() =~= input.take(taken as int));
            assert(t.last() == w@);
        }
        sorted.insert(p, w);
        assert(sticky_views(sorted@) =~= before.insert(p as int, w@));
        taken = taken + 1;
    }
    assert(input.take(n as int) =~= input);
    sorted
}

/// How a launch uses the tagged windows: reuse one, or create a new window;
/// either way, the listed windows clear their tag.
pub enum ReuseResolution {
    /// Create a new window after clearing the tag of these windows.
    Create(Vec<WindowId>),
    /// Send the command to this target after clearing the tag of these windows.
    Reuse(CreateTarget, Vec<WindowId>),
}

/// The abstract value of a [`ReuseResolution`].
pub enum ResolutionView {
    /// See [`ReuseResolution::Create`].
    Create(Seq<Seq<char>>),
    /// See [`ReuseResolution::Reuse`].
    Reuse(TargetView, Seq<Seq<char>>),
}

/// The views of a vector of window identifiers.
pub open spec fn window_id_views(v: Seq<WindowId>) -> Seq<Seq<char>> {
    v.map_values(|w: WindowId| w@)
}

impl View for ReuseResolution {
    type V = ResolutionView;

    open spec fn view(&self) -> ResolutionView {
        match self {
            ReuseResolution::Create(stale) => ResolutionView::Create(window_id_views(stale@)),
            ReuseResolution::Reuse(target, stale) => ResolutionView::Reuse(
                target@,
                window_id_views(stale@),
            ),
        }
    }
}

/// The resolution for tagged windows sorted by index: the lowest-indexed one
/// is reused when it is a single live pane at the default shell, and every
/// other tagged window loses its tag.
pub open spec fn resolution_for(sorted: Seq<StickyView>, default_shell: Seq<char>) -> ResolutionView {
    let canonical = sorted[0];
    let others = sorted.drop_first().map_values(|w: StickyView| w.window_id);
    if is_reusable(canonical, default_shell) {
        ResolutionView::Reuse(
            TargetView { window_id: canonical.window_id, pane_id: canonical.pane_id },
            others,
        )
    } else {
        ResolutionView::Create(seq![canonical.window_id] + others)
    }
}

/// Chooses between reusing the first of the sorted tagged windows and
/// creating a new one.
pub fn resolve_reuse(sorted: Vec<StickyWindow>, default_shell: &str) -> (r: ReuseResolution)
    requires
        sorted@.len() > 0,
    ensures
        r@ == resolution_for(sticky_views(sorted@), default_shell@),
{
    let ghost views = sticky_views(sorted@);
    let mut stale: Vec<WindowId> = Vec::new();
    let mut i: usize = 1;
    while i < sorted.len()
        invariant
            1 <= i <= sorted@.len(),
            views == sticky_views(sorted@),
            window_id_views(stale@) == views.subrange(1, i as int).map_values(
                |w: StickyView| w.window_id,
            ),
        decreases sorted.len() - i,
    {
        let id = sorted[i].window_id().duplicate();
        assert(views[i as int] == sorted@[i as int]@);
        let ghost before = window_id_views(stale@);
        stale.push(id);
        assert(window_id_views(stale@) =~= before.push(id@));
        assert(views.subrange(1, i + 1).map_values(|w: StickyView| w.window_id) =~= views.subrange(
            1,
            i as int,
        ).map_values(|w: StickyView| w.window_id).push(views[i as int].window_id));
        i = i + 1;
    }
    assert(views.subrange(1, views.len() as int) =~= views.drop_first());
    let reusable = sorted[0].is_reusable(default_shell);
    let canonical_id = sorted[0].window_id().duplicate();
    assert(views[0] == sorted@[0]@);
    if reusable {
        let mut sorted = sorted;
        let first = sorted.remove(0);
        ReuseResolution::Reuse(first.into_target(), stale)
    } else {
        let mut all: Vec<WindowId> = Vec::new();
        all.push(canonical_id);
        let ghost tail = window_id_views(stale@);
        all.append(&mut stale);
        assert(window_id_views(all@) =~= seq![views[0].window_id] + tail);
        ReuseResolution::Create(all)
    }
}

/// What the default shell's name is, given `show-options -v -g default-shell`
/// output without its line breaks: the file name of the shell's path.
pub open spec fn default_shell_result(shell: Seq<char>) -> Result<Seq<char>, ErrorView> {
    let invalid = ErrorView::UnexpectedTmuxOutput {
        context: "read tmux default shell"@,
        details: "invalid default shell path: "@ + debug_text(shell),
    };
    match path_file_name(shell) {
        Some(name) => if name.len() > 0 {
            Ok(name)
        } else {
            Err(invalid)
        },
        None => Err(invalid),
    }
}

/// The name of the default shell from its path.
pub fn default_shell_name(shell: &str) -> (r: Result<String, IntmuxError>)
    ensures
        match default_shell_result(shell@) {
            Ok(name) => r is Ok && r->Ok_0@ == name,
            Err(e) => r is Err && r->Err_0@ == e,
        },
{
    let text = chars_of(shell);
    match file_name_chars(&text) {
        Some(name) => {
            if name.len() > 0 {
                return Ok(string_from_chars(&name));
            }
        },
        None => {},
    }
    let mut details = String::from_str("invalid default shell path: ");
    let quoted = debug_quote(shell);
    details.append(quoted.as_str());
    Err(IntmuxError::UnexpectedTmuxOutput { context: "read tmux default shell", details })
}

// ---------------------------------------------------------------------------
// Laws.

proof fn lemma_insert_ordered(s: Seq<StickyView>, w: StickyView)
    requires
        index_ordered(s),
    ensures
        index_ordered(insert_by_index(s, w)),
        insert_by_index(s, w).to_multiset() == s.to_multiset().insert(w),
    decreases s.len(),
{
    broadcast use vstd::multiset::group_multiset_axioms;
    broadcast use vstd::seq_lib::group_to_multiset_ensures;

    if s.len() == 0 {
        assert(seq![w] =~= Seq::<StickyView>::empty().push(w));
        assert(insert_by_index(s, w) =~= Seq::<StickyView>::empty().push(w));
    } else if s.last().window_index <= w.window_index {
        let t = s.push(w);
        assert forall|i: int, j: int| 0 <= i <= j < t.len() implies t[i].window_index
            <= t[j].window_index by {
            if j == s.len() {
                if i < j {
                    assert(s[i].window_index <= s[s.len() - 1].window_index);
                }
            }
        }
    } else {
        let rest = s.drop_last();
        assert(index_ordered(rest));
        lemma_insert_ordered(rest, w);
        let inner = insert_by_index(rest, w);
        let t = inner.push(s.last());
        assert(s =~= rest.push(s.last()));
        assert forall|i: int, j: int| 0 <= i <= j < t.len() implies t[i].window_index
            <= t[j].window_index by {
            if j == t.len() - 1 && i < j {
                // every element of `inner` is `w` or an element of `rest`
                assert(inner.to_multiset().count(inner[i]) > 0);
                assert(inner.to_multiset() == rest.to_multiset().insert(w));
                if inner[i] != w {
                    assert(rest.to_multiset().count(inner[i]) > 0);
                    let k = choose|k: int| 0 <= k < rest.len() && rest[k] == inner[i];
                    assert(s[k].window_index <= s[s.len() - 1].window_index);
                }
            }
        }
    }
}

/// Sorting keeps exactly the listed windows and orders them by window index,
/// so the window a launch considers first is one with the lowest index.
pub proof fn sort_keeps_windows_in_index_order(s: Seq<StickyView>)
    ensures
        sorted_by_index(s).to_multiset() == s.to_multiset(),
        index_ordered(sorted_by_index(s)),
    decreases s.len(),
{
    broadcast use vstd::multiset::group_multiset_axioms;
    broadcast use vstd::seq_lib::group_to_multiset_ensures;

    if s.len() == 0 {
        assert(sorted_by_index(s) =~= Seq::<StickyView>::empty());
    } else {
        sort_keeps_windows_in_index_order(s.drop_last());
        lemma_insert_ordered(sorted_by_index(s.drop_last()), s.last());
        assert(s =~= s.drop_last().push(s.last()));
    }
}

/// Whatever is decided, every tagged window but the reused one loses its tag:
/// a reused window is the first of the sorted windows and the rest are
/// cleared, and when a new window is created all of them are cleared.
pub proof fn resolution_clears_every_other_window(sorted: Seq<StickyView>, default_shell: Seq<char>)
    requires
        sorted.len() > 0,
    ensures
        match resolution_for(sorted, default_shell) {
            ResolutionView::Reuse(target, stale) => {
                &&& is_reusable(sorted[0], default_shell)
                &&& target.window_id == sorted[0].window_id
                &&& target.pane_id == sorted[0].pane_id
                &&& seq![target.window_id] + stale == sorted.map_values(|w: StickyView| w.window_id)
            },
            ResolutionView::Create(stale) => {
                &&& !is_reusable(sorted[0], default_shell)
                &&& stale == sorted.map_values(|w: StickyView| w.window_id)
            },
        },
{
    let ids = sorted.map_values(|w: StickyView| w.window_id);
    assert(ids =~= seq![sorted[0].window_id] + sorted.drop_first().map_values(
        |w: StickyView| w.window_id,
    ));
}


/// The line that `list-windows` prints for a window in the listing's format:
/// the fields separated by tabs, the numbers in decimal and the dead flag as
/// `1` or `0`.
pub open spec fn sticky_line(w: StickyView) -> Seq<char> {
    w.window_id + seq!['\t'] + decimal_digits(w.window_index as nat) + seq!['\t']
        + decimal_digits(w.window_panes as nat) + seq!['\t'] + w.pane_id + seq!['\t'] + (if w.pane_dead {
        "1"@
    } else {
        "0"@
    }) + seq!['\t'] + w.pane_current_command
}

proof fn lemma_decimal_digits(n: nat)
    ensures
        decimal_digits(n).len() > 0,
        all_ascii_digits(decimal_digits(n)),
        digits_value(decimal_digits(n)) == n,
    decreases n,
{
    let d = decimal_digits(n);
    if n < 10 {
        assert((digit_char(n) as u32) == n + 0x30);
        assert(d =~= seq![digit_char(n)]);
        assert(d.drop_last() =~= Seq::<char>::empty());
        assert(digits_value(d.drop_last()) == 0);
        assert(d.last() == digit_char(n));
    } else {
        lemma_decimal_digits(n / 10);
        let last = digit_char(n % 10);
        assert((last as u32) == n % 10 + 0x30);
        assert(d.drop_last() =~= decimal_digits(n / 10));
        assert(d.last() == last);
        assert(n == (n / 10) * 10 + n % 10) by (nonlinear_arith);
        assert(digits_value(d) == digits_value(d.drop_last()) * 10 + ((d.last() as u32) - 0x30) as nat);
        assert forall|i: int| 0 <= i < d.len() implies is_ascii_digit(#[trigger] d[i]) by {
            if i < d.len() - 1 {
                assert(d[i] == decimal_digits(n / 10)[i]);
            }
        }
    }
}

proof fn lemma_decimal_field(n: usize)
    ensures
        usize_value(decimal_digits(n as nat)) == Some(n),
        !decimal_digits(n as nat).contains('\t'),
{
    let d = decimal_digits(n as nat);
    lemma_decimal_digits(n as nat);
    assert(is_ascii_digit(d[0]));
    assert(unsigned_digits(d) == d);
    assert(!d.contains('\t')) by {
        if d.contains('\t') {
            let k = choose|k: int| 0 <= k < d.len() && d[k] == '\t';
            assert(is_ascii_digit(d[k]));
        }
    }
}

proof fn lemma_id_field(id: Seq<char>, prefix: char, label: Seq<char>)
    requires
        is_tmux_id(id, prefix),
        prefix != '\t',
    ensures
        tmux_id_result(id, prefix, label) == Ok::<Seq<char>, ErrorView>(id),
        !id.contains('\t'),
{
    assert(!id.contains('\t')) by {
        if id.contains('\t') {
            let k = choose|k: int| 0 <= k < id.len() && id[k] == '\t';
            if k > 0 {
                assert(is_ascii_digit(id[k]));
            }
        }
    }
}

/// Parsing the line of a window gives the window back: for a window and pane
/// identifier of tmux's form and a command without a tab, reading the line
/// that `list-windows` prints for it yields exactly that window.
pub proof fn a_window_line_parses_back(w: StickyView)
    requires
        is_tmux_id(w.window_id, '@'),
        is_tmux_id(w.pane_id, '%'),
        !w.pane_current_command.contains('\t'),
    ensures
        sticky_result(sticky_line(w)) == Ok::<StickyView, ErrorView>(w),
{
    reveal_strlit("0");
    reveal_strlit("1");
    let index = decimal_digits(w.window_index as nat);
    let panes = decimal_digits(w.window_panes as nat);
    let dead: Seq<char> = if w.pane_dead {
        "1"@
    } else {
        "0"@
    };
    lemma_id_field(w.window_id, '@', "window id"@);
    lemma_id_field(w.pane_id, '%', "pane id"@);
    lemma_decimal_field(w.window_index);
    lemma_decimal_field(w.window_panes);
    assert(!dead.contains('\t')) by {
        if dead.contains('\t') {
            let k = choose|k: int| 0 <= k < dead.len() && dead[k] == '\t';
            assert(k == 0);
        }
    }
    let p1 = w.window_id;
    let p2 = p1 + seq!['\t'] + index;
    let p3 = p2 + seq!['\t'] + panes;
    let p4 = p3 + seq!['\t'] + w.pane_id;
    let p5 = p4 + seq!['\t'] + dead;
    let p6 = p5 + seq!['\t'] + w.pane_current_command;
    assert(p6 == sticky_line(w));
    lemma_split_without_sep(p1, '\t');
    lemma_split_append_field(p1, index, '\t');
    lemma_split_append_field(p2, panes, '\t');
    lemma_split_append_field(p3, w.pane_id, '\t');
    lemma_split_append_field(p4, dead, '\t');
    lemma_split_append_field(p5, w.pane_current_command, '\t');
    let parts = split_on(p6, '\t');
    assert(parts =~= seq![w.window_id, index, panes, w.pane_id, dead, w.pane_current_command]);
    assert(usize_field(parts, 1, "window index"@, p6) == Ok::<usize, ErrorView>(w.window_index));
    assert(usize_field(parts, 2, "window panes"@, p6) == Ok::<usize, ErrorView>(w.window_panes));
    assert(parts[4] == "1"@ <==> w.pane_dead);
    assert(parts[4] == "0"@ || parts[4] == "1"@);
}

} // verus!
