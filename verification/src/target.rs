//! tmux window and pane identifiers, and the output of window creation.

use vstd::prelude::*;

use crate::error::{ErrorView, IntmuxError};
use crate::text::{chars_of, debug_quote, debug_text, split_chars, split_on, string_from_chars, views_of};

verus! {

/// An ASCII decimal digit.
pub open spec fn is_ascii_digit(c: char) -> bool {
    '0' <= c <= '9'
}

/// Whether `raw` is a tmux identifier with the given prefix: the prefix
/// followed only by ASCII digits.
pub open spec fn is_tmux_id(raw: Seq<char>, prefix: char) -> bool {
    &&& raw.len() > 0
    &&& raw[0] == prefix
    &&& forall|i: int| 1 <= i < raw.len() ==> is_ascii_digit(#[trigger] raw[i])
}

/// The error that parsing `raw` as an identifier gets, if any.
pub open spec fn tmux_id_error(raw: Seq<char>, prefix: char, label: Seq<char>) -> Option<ErrorView> {
    if raw.len() == 0 {
        Some(
            ErrorView::UnexpectedTmuxOutput {
                context: "parse tmux identifiers"@,
                details: "missing "@ + label,
            },
        )
    } else if !is_tmux_id(raw, prefix) {
        Some(
            ErrorView::UnexpectedTmuxOutput {
                context: "parse tmux identifiers"@,
                details: "invalid "@ + label + ": "@ + debug_text(raw),
            },
        )
    } else {
        None
    }
}

/// The result of parsing `raw` as an identifier.
pub open spec fn tmux_id_result(raw: Seq<char>, prefix: char, label: Seq<char>) -> Result<
    Seq<char>,
    ErrorView,
> {
    match tmux_id_error(raw, prefix, label) {
        Some(e) => Err(e),
        None => Ok(raw),
    }
}

/// Parses a tmux identifier with the given prefix.
pub fn parse_tmux_id(raw: &str, prefix: char, label: &'static str) -> (r: Result<String, IntmuxError>)
    ensures
        match tmux_id_result(raw@, prefix, label@) {
            Ok(id) => r is Ok && r->Ok_0@ == id,
            Err(e) => r is Err && r->Err_0@ == e,
        },
{
    let text = chars_of(raw);
    if text.len() == 0 {
        let mut details = String::from_str("missing ");
        details.append(label);
        return Err(IntmuxError::UnexpectedTmuxOutput { context: "parse tmux identifiers", details });
    }
    let mut valid = text[0] == prefix;
    let mut i: usize = 1;
    while i < text.len()
        invariant
            1 <= i <= text@.len(),
            valid == (text@[0] == prefix && forall|k: int| 1 <= k < i ==> is_ascii_digit(
                #[trigger] text@[k],
            )),
        decreases text.len() - i,
    {
        let c = text[i];
        valid = valid && '0' <= c && c <= '9';
        i = i + 1;
    }
    if !valid {
        let mut details = String::from_str("invalid ");
        details.append(label);
        details.append(": ");
        let quoted = debug_quote(raw);
        details.append(quoted.as_str());
        return Err(IntmuxError::UnexpectedTmuxOutput { context: "parse tmux identifiers", details });
    }
    Ok(string_from_chars(&text))
}

/// A tmux window identifier such as `@4`.
#[derive(Clone, Debug, PartialEq, Eq)]
pub struct WindowId(String);

impl View for WindowId {
    type V = Seq<char>;

    closed spec fn view(&self) -> Seq<char> {
        self.0@
    }
}

impl WindowId {
    /// Parses a window identifier: `@` followed by digits.
    pub fn parse(raw: &str) -> (r: Result<WindowId, IntmuxError>)
        ensures
            match tmux_id_result(raw@, '@', "window id"@) {
                Ok(id) => r is Ok && r->Ok_0@ == id,
                Err(e) => r is Err && r->Err_0@ == e,
            },
    {
        let id = parse_tmux_id(raw, '@', "window id")?;
        Ok(WindowId(id))
    }

    /// A copy of the identifier.
    pub fn duplicate(&self) -> (r: WindowId)
        ensures
            r@ == self@,
    {
        WindowId(self.0.clone())
    }

    /// The identifier's text.
    pub fn as_str(&self) -> (r: &str)
        ensures
            r@ == self@,
    {
        self.0.as_str()
    }
}

/// A tmux pane identifier such as `%9`.
#[derive(Clone, Debug, PartialEq, Eq)]
pub struct PaneId(String);

impl View for PaneId {
    type V = Seq<char>;

    closed spec fn view(&self) -> Seq<char> {
        self.0@
    }
}

impl PaneId {
    /// Parses a pane identifier: `%` followed by digits.
    pub fn parse(raw: &str) -> (r: Result<PaneId, IntmuxError>)
        ensures
            match tmux_id_result(raw@, '%', "pane id"@) {
                Ok(id) => r is Ok && r->Ok_0@ == id,
                Err(e) => r is Err && r->Err_0@ == e,
            },
    {
        let id = parse_tmux_id(raw, '%', "pane id")?;
        Ok(PaneId(id))
    }

    /// A copy of the identifier.
    pub fn duplicate(&self) -> (r: PaneId)
        ensures
            r@ == self@,
    {
        PaneId(self.0.clone())
    }

    /// The identifier's text.
    pub fn as_str(&self) -> (r: &str)
        ensures
            r@ == self@,
    {
        self.0.as_str()
    }
}

/// The window and pane that a command is sent to.
#[derive(Clone, Debug, PartialEq, Eq)]
pub struct CreateTarget {
    pane_id: PaneId,
    window_id: WindowId,
}

/// The abstract value of a [`CreateTarget`].
pub struct TargetView {
    /// The window identifier.
    pub window_id: Seq<char>,
    /// The pane identifier.
    pub pane_id: Seq<char>,
}

impl View for CreateTarget {
    type V = TargetView;

    closed spec fn view(&self) -> TargetView {
        TargetView { window_id: self.window_id@, pane_id: self.pane_id@ }
    }
}

impl CreateTarget {
    /// Pairs a pane with its window.
    pub fn new(pane_id: PaneId, window_id: WindowId) -> (r: CreateTarget)
        ensures
            r@ == (TargetView { window_id: window_id@, pane_id: pane_id@ }),
    {
        CreateTarget { pane_id, window_id }
    }

    /// The pane.
    pub fn pane_id(&self) -> (r: &PaneId)
        ensures
            r@ == self@.pane_id,
    {
        &self.pane_id
    }

    /// The window.
    pub fn window_id(&self) -> (r: &WindowId)
        ensures
            r@ == self@.window_id,
    {
        &self.window_id
    }
}

/// What parsing the `#{window_id}\t#{pane_id}` output of a window creation
/// gives: exactly two tab-separated fields, the pane identifier checked
/// before the window identifier.
pub open spec fn create_target_result(output: Seq<char>, context: Seq<char>) -> Result<
    TargetView,
    ErrorView,
> {
    let parts = split_on(output, '\t');
    if parts.len() < 2 {
        Err(ErrorView::UnexpectedTmuxOutput { context, details: "missing pane id"@ })
    } else if parts.len() > 2 {
        Err(
            ErrorView::UnexpectedTmuxOutput {
                context,
                details: "expected two tab-separated fields, got "@ + debug_text(output),
            },
        )
    } else {
        match tmux_id_result(parts[1], '%', "pane id"@) {
            Err(e) => Err(e),
            Ok(pane_id) => match tmux_id_result(parts[0], '@', "window id"@) {
                Err(e) => Err(e),
                Ok(window_id) => Ok(TargetView { window_id, pane_id }),
            },
        }
    }
}

/// Parses the `#{window_id}\t#{pane_id}` line that tmux prints for a new
/// session or window.
pub fn parse_create_target(output: &str, context: &'static str) -> (r: Result<
    CreateTarget,
    IntmuxError,
>)
    ensures
        match create_target_result(output@, context@) {
            Ok(t) => r is Ok && r->Ok_0@ == t,
            Err(e) => r is Err && r->Err_0@ == e,
        },
{
    let text = chars_of(output);
    let parts = split_chars(&text, '\t');
    assert(views_of(parts@).len() == parts@.len());
    if parts.len() < 2 {
        return Err(
            IntmuxError::UnexpectedTmuxOutput {
                context,
                details: String::from_str("missing pane id"),
            },
        );
    }
    if parts.len() > 2 {
        let mut details = String::from_str("expected two tab-separated fields, got ");
        let quoted = debug_quote(output);
        details.append(quoted.as_str());
        return Err(IntmuxError::UnexpectedTmuxOutput { context, details });
    }
    let window_text = string_from_chars(&parts[0]);
    let pane_text = string_from_chars(&parts[1]);
    assert(views_of(parts@)[0] == parts@[0]@);
    assert(views_of(parts@)[1] == parts@[1]@);
    let pane_id = PaneId::parse(pane_text.as_str())?;
    let window_id = WindowId::parse(window_text.as_str())?;
    Ok(CreateTarget::new(pane_id, window_id))
}

/// A well-formed creation line is read back as the window and pane it names.
pub proof fn create_target_reads_back(window_id: Seq<char>, pane_id: Seq<char>, context: Seq<char>)
    requires
        is_tmux_id(window_id, '@'),
        is_tmux_id(pane_id, '%'),
    ensures
        create_target_result(window_id + seq!['\t'] + pane_id, context) == Ok::<
            TargetView,
            ErrorView,
        >(TargetView { window_id, pane_id }),
{
    lemma_split_without_sep(window_id, '\t');
    lemma_split_append_field(window_id, pane_id, '\t');
}

/// A text without the separator is a single field.
pub proof fn lemma_split_without_sep(s: Seq<char>, sep: char)
    requires
        !s.contains(sep),
    ensures
        split_on(s, sep) == seq![s],
    decreases s.len(),
{
    if s.len() > 0 {
        assert(!s.drop_last().contains(sep)) by {
            if s.drop_last().contains(sep) {
                let k = choose|k: int| 0 <= k < s.drop_last().len() && s.drop_last()[k] == sep;
                assert(s[k] == sep);
            }
        }
        lemma_split_without_sep(s.drop_last(), sep);
        assert(s.last() != sep) by {
            assert(s[s.len() - 1] == s.last());
        }
        assert(s.drop_last().push(s.last()) =~= s);
        assert(seq![s.drop_last()].drop_last().push(s.drop_last().push(s.last())) =~= seq![s]);
    } else {
        assert(s =~= Seq::<char>::empty());
    }
}

/// Appending a separator and a separator-free field adds that field.
pub proof fn lemma_split_append_field(prefix: Seq<char>, field: Seq<char>, sep: char)
    requires
        !field.contains(sep),
    ensures
        split_on(prefix + seq![sep] + field, sep) == split_on(prefix, sep).push(field),
    decreases field.len(),
{
    let whole = prefix + seq![sep] + field;
    if field.len() == 0 {
        assert(whole.drop_last() =~= prefix);
        assert(whole.last() == sep);
        assert(field =~= Seq::<char>::empty());
    } else {
        let shorter = field.drop_last();
        assert(!shorter.contains(sep)) by {
            if shorter.contains(sep) {
                let k = choose|k: int| 0 <= k < shorter.len() && shorter[k] == sep;
                assert(field[k] == sep);
            }
        }
        lemma_split_append_field(prefix, shorter, sep);
        assert(whole.drop_last() =~= prefix + seq![sep] + shorter);
        assert(whole.last() == field.last());
        assert(field.last() != sep) by {
            assert(field[field.len() - 1] == field.last());
        }
        let prev = split_on(prefix, sep).push(shorter);
        assert(shorter.push(field.last()) =~= field);
        assert(prev.drop_last().push(prev.last().push(field.last())) =~= split_on(prefix, sep).push(
            field,
        ));
    }
}

} // verus!
