//! Quoting arguments for the interactive shell inside a tmux pane.

use vstd::prelude::*;

use crate::text::{chars_of, push_char, string_from_chars};

verus! {

/// A character that a POSIX shell reads literally outside quotes, so a word
/// made only of such characters needs no quoting.
pub open spec fn is_plain_char(c: char) -> bool {
    ||| 'A' <= c <= 'Z'
    ||| 'a' <= c <= 'z'
    ||| '0' <= c <= '9'
    ||| c == '/'
    ||| c == '.'
    ||| c == '_'
    ||| c == '-'
    ||| c == ':'
}

/// A non-empty word of plain characters.
pub open spec fn is_plain_word(s: Seq<char>) -> bool {
    s.len() > 0 && forall|i: int| 0 <= i < s.len() ==> is_plain_char(#[trigger] s[i])
}

/// How one character is written inside single quotes: a quote becomes
/// `'\''` (close, escaped quote, reopen); anything else stands for itself.
pub open spec fn quoted_piece(c: char) -> Seq<char> {
    if c == '\'' {
        seq!['\'', '\\', '\'', '\'']
    } else {
        seq![c]
    }
}

/// The text of `s` as written between single quotes.
pub open spec fn escape_single_quotes(s: Seq<char>) -> Seq<char>
    decreases s.len(),
{
    if s.len() == 0 {
        Seq::empty()
    } else {
        quoted_piece(s[0]) + escape_single_quotes(s.drop_first())
    }
}

/// The shell word for `s`: `s` itself when it is a plain word, otherwise `s`
/// in single quotes.
pub open spec fn shell_quoted(s: Seq<char>) -> Seq<char> {
    if is_plain_word(s) {
        s
    } else {
        seq!['\''] + escape_single_quotes(s) + seq!['\'']
    }
}

/// The words joined by single spaces.
pub open spec fn join_words(words: Seq<Seq<char>>) -> Seq<char>
    decreases words.len(),
{
    if words.len() == 0 {
        Seq::empty()
    } else if words.len() == 1 {
        words[0]
    } else {
        join_words(words.drop_last()) + seq![' '] + words.last()
    }
}

/// The command line for an argument vector: each argument quoted, joined by
/// single spaces.
pub open spec fn shell_joined(argv: Seq<Seq<char>>) -> Seq<char> {
    join_words(argv.map_values(|a: Seq<char>| shell_quoted(a)))
}

fn plain_char(c: char) -> (r: bool)
    ensures
        r == is_plain_char(c),
{
    ('A' <= c && c <= 'Z') || ('a' <= c && c <= 'z') || ('0' <= c && c <= '9') || c == '/' || c
        == '.' || c == '_' || c == '-' || c == ':'
}

/// Quotes one argument for a POSIX shell.
pub fn shell_quote(argument: &str) -> (r: String)
    ensures
        r@ == shell_quoted(argument@),
{
    let text = chars_of(argument);
    let n = text.len();
    let mut plain = n > 0;
    let mut i: usize = 0;
    while i < n
        invariant
            n == text@.len(),
            i <= n,
            plain == (n > 0 && forall|k: int| 0 <= k < i ==> is_plain_char(#[trigger] text@[k])),
        decreases n - i,
    {
        plain = plain && plain_char(text[i]);
        i = i + 1;
    }
    if plain {
        return string_from_chars(&text);
    }
    let mut out = String::new();
    push_char(&mut out, '\'');
    assert(text@.take(0) =~= Seq::<char>::empty());
    assert(out@ =~= seq!['\''] + escape_prefix(text@, 0));
    let mut j: usize = 0;
    while j < n
        invariant
            n == text@.len(),
            j <= n,
            out@ == seq!['\''] + escape_prefix(text@, j as int),
        decreases n - j,
    {
        let c = text[j];
        if c == '\'' {
            push_char(&mut out, '\'');
            push_char(&mut out, '\\');
            push_char(&mut out, '\'');
            push_char(&mut out, '\'');
        } else {
            push_char(&mut out, c);
        }
        proof {
            lemma_escape_prefix_step(text@, j as int);
        }
        j = j + 1;
    }
    proof {
        lemma_escape_prefix_full(text@);
    }
    push_char(&mut out, '\'');
    out
}

/// The escaped text of the first `k` characters of `s`.
pub open spec fn escape_prefix(s: Seq<char>, k: int) -> Seq<char> {
    escape_single_quotes(s.take(k))
}

proof fn lemma_escape_append(s: Seq<char>, c: char)
    ensures
        escape_single_quotes(s.push(c)) == escape_single_quotes(s) + quoted_piece(c),
    decreases s.len(),
{
    if s.len() == 0 {
        let t = s.push(c);
        assert(t[0] == c);
        assert(t.drop_first() =~= Seq::<char>::empty());
        assert(escape_single_quotes(t.drop_first()) == Seq::<char>::empty());
        assert(escape_single_quotes(s) == Seq::<char>::empty());
        assert(escape_single_quotes(t) =~= quoted_piece(c));
    } else {
        assert(s.push(c).drop_first() =~= s.drop_first().push(c));
        lemma_escape_append(s.drop_first(), c);
        assert(escape_single_quotes(s.push(c)) =~= quoted_piece(s[0]) + escape_single_quotes(
            s.drop_first(),
        ) + quoted_piece(c));
    }
}

proof fn lemma_escape_prefix_step(s: Seq<char>, j: int)
    requires
        0 <= j < s.len(),
    ensures
        escape_prefix(s, j + 1) == escape_prefix(s, j) + quoted_piece(s[j]),
{
    assert(s.take(j + 1) =~= s.take(j).push(s[j]));
    lemma_escape_append(s.take(j), s[j]);
}

proof fn lemma_escape_prefix_full(s: Seq<char>)
    ensures
        escape_prefix(s, s.len() as int) == escape_single_quotes(s),
{
    assert(s.take(s.len() as int) =~= s);
}

proof fn lemma_join_take_step(q: Seq<Seq<char>>, i: int)
    requires
        0 <= i < q.len(),
    ensures
        i == 0 ==> join_words(q.take(i + 1)) == q[i],
        i > 0 ==> join_words(q.take(i + 1)) == join_words(q.take(i)) + seq![' '] + q[i],
{
    let t = q.take(i + 1);
    assert(t.drop_last() =~= q.take(i));
    assert(t.last() == q[i]);
    if i == 0 {
        assert(t.len() == 1);
        assert(t[0] == q[0]);
    }
}

/// Quotes every argument and joins them with single spaces.
pub fn shell_join(argv: &[String]) -> (r: String)
    ensures
        r@ == shell_joined(argv@.map_values(|a: String| a@)),
{
    let ghost views = argv@.map_values(|a: String| a@);
    let ghost quoted = views.map_values(|a: Seq<char>| shell_quoted(a));
    let mut out = String::new();
    let mut i: usize = 0;
    while i < argv.len()
        invariant
            i <= argv@.len(),
            views == argv@.map_values(|a: String| a@),
            quoted == views.map_values(|a: Seq<char>| shell_quoted(a)),
            out@ == join_words(quoted.take(i as int)),
        decreases argv.len() - i,
    {
        let word = shell_quote(argv[i].as_str());
        if i > 0 {
            push_char(&mut out, ' ');
        }
        out.append(word.as_str());
        proof {
            assert(quoted[i as int] == word@);
            lemma_join_take_step(quoted, i as int);
            if i == 0 {
                assert(out@ =~= word@);
            } else {
                assert(out@ =~= join_words(quoted.take(i as int)) + seq![' '] + word@);
            }
        }
        i = i + 1;
    }
    assert(quoted.take(argv@.len() as int) =~= quoted);
    out
}

// ---------------------------------------------------------------------------
// Reading a word back the way a POSIX shell does.

/// The text a POSIX shell reads from the word `w`, outside (`in_quotes`
/// false) or inside single quotes: a `'` toggles quoting, and outside quotes
/// a `\` makes the next character literal.
pub open spec fn shell_read(w: Seq<char>, in_quotes: bool) -> Seq<char>
    decreases w.len(),
{
    if w.len() == 0 {
        Seq::empty()
    } else if in_quotes {
        if w[0] == '\'' {
            shell_read(w.drop_first(), false)
        } else {
            seq![w[0]] + shell_read(w.drop_first(), true)
        }
    } else if w[0] == '\'' {
        shell_read(w.drop_first(), true)
    } else if w[0] == '\\' && w.len() >= 2 {
        seq![w[1]] + shell_read(w.subrange(2, w.len() as int), false)
    } else {
        seq![w[0]] + shell_read(w.drop_first(), false)
    }
}

proof fn lemma_read_plain(s: Seq<char>)
    requires
        forall|i: int| 0 <= i < s.len() ==> is_plain_char(#[trigger] s[i]),
    ensures
        shell_read(s, false) == s,
    decreases s.len(),
{
    if s.len() > 0 {
        assert(is_plain_char(s[0]));
        assert forall|i: int| 0 <= i < s.drop_first().len() implies is_plain_char(
            #[trigger] s.drop_first()[i],
        ) by {
            assert(s.drop_first()[i] == s[i + 1]);
        }
        lemma_read_plain(s.drop_first());
        assert(s =~= seq![s[0]] + s.drop_first());
    }
}

proof fn lemma_read_escaped(s: Seq<char>, rest: Seq<char>)
    ensures
        shell_read(escape_single_quotes(s) + rest, true) == s + shell_read(rest, true),
    decreases s.len(),
{
    if s.len() == 0 {
        assert(escape_single_quotes(s) + rest =~= rest);
        assert(s + shell_read(rest, true) =~= shell_read(rest, true));
    } else {
        let c = s[0];
        let tail = escape_single_quotes(s.drop_first()) + rest;
        lemma_read_escaped(s.drop_first(), rest);
        let w = escape_single_quotes(s) + rest;
        assert(w =~= quoted_piece(c) + tail);
        if c == '\'' {
            // `'` closes, `\'` is a literal quote, `'` reopens.
            let a = w.drop_first();
            assert(w[0] == '\'');
            assert(a =~= seq!['\\', '\'', '\''] + tail);
            assert(shell_read(w, true) == shell_read(a, false));
            assert(a[0] == '\\' && a[1] == '\'');
            let b = a.subrange(2, a.len() as int);
            assert(b =~= seq!['\''] + tail);
            assert(shell_read(a, false) == seq!['\''] + shell_read(b, false));
            assert(b[0] == '\'');
            assert(b.drop_first() =~= tail);
            assert(shell_read(b, false) == shell_read(tail, true));
            assert(shell_read(w, true) == seq!['\''] + shell_read(tail, true));
        } else {
            assert(w.drop_first() =~= tail);
        }
        assert(s =~= seq![c] + s.drop_first());
        assert(seq![c] + (s.drop_first() + shell_read(rest, true)) =~= s + shell_read(rest, true));
    }
}

/// Reading back a quoted word gives the original argument: what the shell in
/// the pane receives is exactly the argument that was quoted.
pub proof fn shell_quote_reads_back(s: Seq<char>)
    ensures
        shell_read(shell_quoted(s), false) == s,
{
    if is_plain_word(s) {
        lemma_read_plain(s);
    } else {
        let w = seq!['\''] + escape_single_quotes(s) + seq!['\''];
        assert(w.drop_first() =~= escape_single_quotes(s) + seq!['\'']);
        lemma_read_escaped(s, seq!['\'']);
        let q = seq!['\''];
        assert(q[0] == '\'');
        assert(q.drop_first() =~= Seq::<char>::empty());
        assert(shell_read(q.drop_first(), false) == Seq::<char>::empty());
        assert(shell_read(q, true) =~= Seq::<char>::empty());
        assert(s + Seq::<char>::empty() =~= s);
    }
}

/// A word is left bare exactly when it is non-empty and made only of ASCII
/// letters, digits and `/ . _ - :`; every other argument (one holding a glob
/// character, a blank, a quote, `$`, `~`, `;`, `&`, `|`, a redirection or any
/// other character the shell treats specially, and the empty argument) is
/// written between single quotes, so the shell neither expands nor splits it.
pub proof fn only_safe_words_stay_bare(s: Seq<char>)
    ensures
        (s.len() > 0 && forall|i: int|
            0 <= i < s.len() ==> {
                let c = #[trigger] s[i];
                ||| 'A' <= c <= 'Z'
                ||| 'a' <= c <= 'z'
                ||| '0' <= c <= '9'
                ||| c == '/'
                ||| c == '.'
                ||| c == '_'
                ||| c == '-'
                ||| c == ':'
            }) ==> shell_quoted(s) == s,
        !(s.len() > 0 && forall|i: int|
            0 <= i < s.len() ==> {
                let c = #[trigger] s[i];
                ||| 'A' <= c <= 'Z'
                ||| 'a' <= c <= 'z'
                ||| '0' <= c <= '9'
                ||| c == '/'
                ||| c == '.'
                ||| c == '_'
                ||| c == '-'
                ||| c == ':'
            }) ==> shell_quoted(s) == seq!['\''] + escape_single_quotes(s) + seq!['\''],
{
}

// ---------------------------------------------------------------------------
// Splitting a command line into words the way a POSIX shell does.

/// A blank that separates words outside quotes.
pub open spec fn is_word_separator(c: char) -> bool {
    c == ' ' || c == '\t' || c == '\n'
}

/// The word being read, as a list: one word when one has started.
pub open spec fn word_if(current: Seq<char>, started: bool) -> Seq<Seq<char>> {
    if started {
        seq![current]
    } else {
        Seq::empty()
    }
}

/// The words a POSIX shell reads from `w`, given whether it is inside single
/// quotes, the text of the word read so far, and whether a word has started:
/// unquoted blanks separate words, `'` toggles quoting, and outside quotes
/// `\` makes the next character literal.
pub open spec fn shell_words_from(w: Seq<char>, in_quotes: bool, current: Seq<char>, started: bool) -> Seq<
    Seq<char>,
>
    decreases w.len(),
{
    if w.len() == 0 {
        word_if(current, started)
    } else if in_quotes {
        if w[0] == '\'' {
            shell_words_from(w.drop_first(), false, current, true)
        } else {
            shell_words_from(w.drop_first(), true, current.push(w[0]), true)
        }
    } else if is_word_separator(w[0]) {
        word_if(current, started) + shell_words_from(w.drop_first(), false, Seq::empty(), false)
    } else if w[0] == '\'' {
        shell_words_from(w.drop_first(), true, current, true)
    } else if w[0] == '\\' && w.len() >= 2 {
        shell_words_from(w.subrange(2, w.len() as int), false, current.push(w[1]), true)
    } else {
        shell_words_from(w.drop_first(), false, current.push(w[0]), true)
    }
}

/// The words a POSIX shell reads from a command line.
pub open spec fn shell_words(line: Seq<char>) -> Seq<Seq<char>> {
    shell_words_from(line, false, Seq::empty(), false)
}

proof fn lemma_words_plain(p: Seq<char>, rest: Seq<char>, current: Seq<char>, started: bool)
    requires
        forall|i: int| 0 <= i < p.len() ==> is_plain_char(#[trigger] p[i]),
    ensures
        shell_words_from(p + rest, false, current, started) == shell_words_from(
            rest,
            false,
            current + p,
            started || p.len() > 0,
        ),
    decreases p.len(),
{
    if p.len() == 0 {
        assert(p + rest =~= rest);
        assert(current + p =~= current);
    } else {
        let w = p + rest;
        assert(w[0] == p[0]);
        assert(is_plain_char(p[0]));
        assert(w.drop_first() =~= p.drop_first() + rest);
        assert forall|i: int| 0 <= i < p.drop_first().len() implies is_plain_char(
            #[trigger] p.drop_first()[i],
        ) by {
            assert(p.drop_first()[i] == p[i + 1]);
        }
        lemma_words_plain(p.drop_first(), rest, current.push(p[0]), true);
        assert(current.push(p[0]) + p.drop_first() =~= current + p);
    }
}

proof fn lemma_words_escaped(s: Seq<char>, rest: Seq<char>, current: Seq<char>)
    ensures
        shell_words_from(escape_single_quotes(s) + rest, true, current, true) == shell_words_from(
            rest,
            true,
            current + s,
            true,
        ),
    decreases s.len(),
{
    if s.len() == 0 {
        assert(escape_single_quotes(s) + rest =~= rest);
        assert(current + s =~= current);
    } else {
        let c = s[0];
        let tail = escape_single_quotes(s.drop_first()) + rest;
        let w = escape_single_quotes(s) + rest;
        assert(w =~= quoted_piece(c) + tail);
        lemma_words_escaped(s.drop_first(), rest, current.push(c));
        if c == '\'' {
            let a = w.drop_first();
            assert(w[0] == '\'');
            assert(a =~= seq!['\\', '\'', '\''] + tail);
            assert(a[0] == '\\' && a[1] == '\'');
            let b = a.subrange(2, a.len() as int);
            assert(b =~= seq!['\''] + tail);
            assert(b[0] == '\'');
            assert(b.drop_first() =~= tail);
            assert(shell_words_from(w, true, current, true) == shell_words_from(a, false, current, true));
            assert(shell_words_from(a, false, current, true) == shell_words_from(b, false, current.push(c), true));
            assert(shell_words_from(b, false, current.push(c), true) == shell_words_from(tail, true, current.push(c), true));
            assert(shell_words_from(w, true, current, true) == shell_words_from(
                tail,
                true,
                current.push(c),
                true,
            ));
        } else {
            assert(w[0] == c);
            assert(w.drop_first() =~= tail);
        }
        assert(current.push(c) + s.drop_first() =~= current + s);
    }
}

proof fn lemma_words_quoted(a: Seq<char>, rest: Seq<char>)
    ensures
        shell_words_from(shell_quoted(a) + rest, false, Seq::empty(), false) == shell_words_from(
            rest,
            false,
            a,
            true,
        ),
{
    if is_plain_word(a) {
        lemma_words_plain(a, rest, Seq::empty(), false);
        assert(Seq::<char>::empty() + a =~= a);
    } else {
        let w = shell_quoted(a) + rest;
        assert(w[0] == '\'');
        assert(w.drop_first() =~= escape_single_quotes(a) + (seq!['\''] + rest));
        lemma_words_escaped(a, seq!['\''] + rest, Seq::empty());
        let q = seq!['\''] + rest;
        assert(q[0] == '\'');
        assert(q.drop_first() =~= rest);
        assert(Seq::<char>::empty() + a =~= a);
    }
}

proof fn lemma_join_front(x: Seq<char>, ys: Seq<Seq<char>>)
    ensures
        join_words(seq![x] + ys) == if ys.len() == 0 {
            x
        } else {
            x + seq![' '] + join_words(ys)
        },
    decreases ys.len(),
{
    let all = seq![x] + ys;
    assert(seq![x][0] == x);
    assert(join_words(seq![x]) == x);
    if ys.len() == 0 {
        assert(all =~= seq![x]);
    } else if ys.len() == 1 {
        assert(all.drop_last() =~= seq![x]);
        assert(all.last() == ys[0]);
        assert(join_words(ys) == ys[0]);
    } else {
        lemma_join_front(x, ys.drop_last());
        assert(all.drop_last() =~= seq![x] + ys.drop_last());
        assert(all.last() == ys.last());
        assert(x + seq![' '] + join_words(ys.drop_last()) + seq![' '] + ys.last() =~= x + seq![' ']
            + (join_words(ys.drop_last()) + seq![' '] + ys.last()));
    }
}

/// The shell in the pane splits a joined command line back into exactly the
/// arguments it was built from: every argument arrives intact, spaces and
/// quotes included.
pub proof fn shell_join_reads_back(argv: Seq<Seq<char>>)
    ensures
        shell_words(shell_joined(argv)) == argv,
    decreases argv.len(),
{
    let quoted = argv.map_values(|a: Seq<char>| shell_quoted(a));
    if argv.len() == 0 {
        assert(quoted =~= Seq::<Seq<char>>::empty());
        assert(shell_joined(argv) =~= Seq::<char>::empty());
        assert(argv =~= Seq::<Seq<char>>::empty());
    } else {
        let rest = argv.drop_first();
        let rest_quoted = rest.map_values(|a: Seq<char>| shell_quoted(a));
        assert(quoted =~= seq![shell_quoted(argv[0])] + rest_quoted);
        lemma_join_front(shell_quoted(argv[0]), rest_quoted);
        shell_join_reads_back(rest);
        if rest.len() == 0 {
            lemma_words_quoted(argv[0], Seq::empty());
            assert(shell_quoted(argv[0]) + Seq::<char>::empty() =~= shell_quoted(argv[0]));
            assert(argv =~= seq![argv[0]]);
        } else {
            let tail = seq![' '] + join_words(rest_quoted);
            assert(shell_quoted(argv[0]) + seq![' '] + join_words(rest_quoted) =~= shell_quoted(
                argv[0],
            ) + tail);
            lemma_words_quoted(argv[0], tail);
            assert(tail[0] == ' ');
            assert(tail.drop_first() =~= join_words(rest_quoted));
            assert(argv =~= seq![argv[0]] + rest);
        }
    }
}

} // verus!
