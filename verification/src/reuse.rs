//! The key that tags a tmux window for reuse by the same command and directory.

use vstd::prelude::*;
use vstd::utf8::encode_utf8;

use sha2::Digest;

use crate::model::{CommandPayload, CommandSpec, PayloadView};
use crate::text::push_char;

verus! {

/// The SHA-256 digest of `data`.
pub uninterp spec fn sha256(data: Seq<u8>) -> Seq<u8>;

/// `<sha2::Sha256 as Digest>::digest`: the SHA-256 digest of `data`, which
/// is 32 bytes long. What the digest is beyond its length is left to the name
/// `sha256`.
#[verifier::external_body]
fn sha256_digest(data: &[u8]) -> (digest: Vec<u8>)
    ensures
        digest@ == sha256(data@),
        digest@.len() == 32,
{
    sha2::Sha256::digest(data).to_vec()
}

/// The fields concatenated, each followed by a zero byte.
pub open spec fn nul_terminated(fields: Seq<Seq<u8>>) -> Seq<u8>
    decreases fields.len(),
{
    if fields.len() == 0 {
        Seq::empty()
    } else {
        nul_terminated(fields.drop_last()) + fields.last() + seq![0u8]
    }
}

/// The bytes that are hashed for a reuse key: the UTF-8 of the working
/// directory and of each command field, each followed by a zero byte.
pub open spec fn reuse_key_input(cwd: Seq<char>, fields: Seq<Seq<char>>) -> Seq<u8> {
    nul_terminated(seq![encode_utf8(cwd)] + fields.map_values(|f: Seq<char>| encode_utf8(f)))
}

/// The lowercase hexadecimal digit for a value below sixteen.
pub open spec fn hex_digit(value: nat) -> char {
    if value < 10 {
        ((value + 0x30) as u32) as char
    } else {
        ((value - 10 + 0x61) as u32) as char
    }
}

/// The lowercase hexadecimal text of `bytes`, two digits per byte, high
/// nibble first.
pub open spec fn hex_text(bytes: Seq<u8>) -> Seq<char>
    decreases bytes.len(),
{
    if bytes.len() == 0 {
        Seq::empty()
    } else {
        hex_text(bytes.drop_last()) + seq![
            hex_digit((bytes.last() / 16) as nat),
            hex_digit((bytes.last() % 16) as nat),
        ]
    }
}

/// The reuse key for a working directory and command fields.
pub open spec fn reuse_key_text(cwd: Seq<char>, fields: Seq<Seq<char>>) -> Seq<char> {
    hex_text(sha256(reuse_key_input(cwd, fields)))
}

/// The hexadecimal digit for a nibble.
pub fn hex_nibble(value: u8) -> (c: char)
    requires
        value < 16,
    ensures
        c == hex_digit(value as nat),
{
    if value < 10 {
        let c = (value + 0x30) as char;
        c
    } else {
        let c = (value - 10 + 0x61) as char;
        c
    }
}

/// Encodes bytes as lowercase hexadecimal.
pub fn hex_encode(bytes: &[u8]) -> (r: String)
    ensures
        r@ == hex_text(bytes@),
        r@.len() == 2 * bytes@.len(),
{
    let mut out = String::new();
    for i in 0..bytes.len()
        invariant
            out@ == hex_text(bytes@.take(i as int)),
            out@.len() == 2 * i,
    {
        let byte = bytes[i];
        push_char(&mut out, hex_nibble(byte / 16));
        push_char(&mut out, hex_nibble(byte % 16));
        proof {
            let t = bytes@.take(i + 1);
            assert(t.drop_last() =~= bytes@.take(i as int));
            assert(t.last() == byte);
            assert(out@ =~= hex_text(t));
        }
    }
    assert(bytes@.take(bytes@.len() as int) =~= bytes@);
    out
}

fn push_field(buffer: &mut Vec<u8>, text: &str)
    ensures
        final(buffer)@ == old(buffer)@ + encode_utf8(text@) + seq![0u8],
{
    let bytes = text.as_bytes();
    let mut i: usize = 0;
    while i < bytes.len()
        invariant
            i <= bytes@.len(),
            bytes@ == encode_utf8(text@),
            buffer@ == old(buffer)@ + bytes@.take(i as int),
        decreases bytes.len() - i,
    {
        buffer.push(bytes[i]);
        assert(bytes@.take(i + 1) =~= bytes@.take(i as int).push(bytes@[i as int]));
        i = i + 1;
    }
    assert(bytes@.take(bytes@.len() as int) =~= bytes@);
    buffer.push(0u8);
}

/// Appends the bytes hashed for a reuse key: the working directory and the
/// command fields, each terminated by a zero byte.
#[verifier::spinoff_prover]
fn push_key_input(buffer: &mut Vec<u8>, cwd: &str, fields: &[String])
    ensures
        final(buffer)@ == old(buffer)@ + reuse_key_input(cwd@, fields@.map_values(|f: String| f@)),
{
    let ghost start = buffer@;
    let ghost views = fields@.map_values(|f: String| f@);
    let ghost encoded = seq![encode_utf8(cwd@)] + views.map_values(|f: Seq<char>| encode_utf8(f));
    push_field(buffer, cwd);
    proof {
        let t = encoded.take(1);
        assert(t.drop_last() =~= Seq::<Seq<u8>>::empty());
        assert(t.last() == encode_utf8(cwd@));
        assert(nul_terminated(t.drop_last()) == Seq::<u8>::empty());
        assert(buffer@ =~= start + nul_terminated(t));
    }
    for i in 0..fields.len()
        invariant
            views == fields@.map_values(|f: String| f@),
            encoded == seq![encode_utf8(cwd@)] + views.map_values(|f: Seq<char>| encode_utf8(f)),
            buffer@ == start + nul_terminated(encoded.take(i + 1)),
    {
        push_field(buffer, fields[i].as_str());
        proof {
            let t = encoded.take(i + 2);
            assert(t.drop_last() =~= encoded.take(i + 1));
            assert(t.last() == encode_utf8(fields@[i as int]@));
            assert(buffer@ =~= start + nul_terminated(t));
        }
    }
    assert(encoded.take(fields@.len() + 1 as int) =~= encoded);
}

/// Computes the reuse key: the hexadecimal SHA-256 of the working directory
/// and the command fields, each terminated by a zero byte.
#[verifier::spinoff_prover]
pub fn compute_reuse_key(cwd: &str, fields: &[String]) -> (r: String)
    ensures
        r@ == reuse_key_text(cwd@, fields@.map_values(|f: String| f@)),
        r@.len() == 64,
{
    let mut buffer: Vec<u8> = Vec::new();
    push_key_input(&mut buffer, cwd, fields);
    assert(buffer@ =~= reuse_key_input(cwd@, fields@.map_values(|f: String| f@)));
    let digest = sha256_digest(buffer.as_slice());
    hex_encode(digest.as_slice())
}

/// The byte that opens the hashed input of a shell command line. It never
/// starts the input of an argument vector, which begins with the UTF-8 of the
/// working directory or with its terminating zero.
pub open spec fn shell_marker() -> u8 {
    0xFFu8
}

/// The bytes hashed for a command's reuse key: those of its argument vector,
/// or, for a shell command line, the marker byte and then those of the line
/// as a single field.
pub open spec fn payload_key_input(cwd: Seq<char>, payload: PayloadView) -> Seq<u8> {
    match payload {
        PayloadView::Argv(argv) => reuse_key_input(cwd, argv),
        PayloadView::Shell(line) => seq![shell_marker()] + reuse_key_input(cwd, seq![line]),
    }
}

/// The reuse key of a command in a working directory.
pub open spec fn command_key_text(cwd: Seq<char>, payload: PayloadView) -> Seq<char> {
    hex_text(sha256(payload_key_input(cwd, payload)))
}

/// Computes the reuse key of a shell command line: the hexadecimal SHA-256 of
/// the marker byte, then the working directory and the line, each terminated
/// by a zero byte.
#[verifier::spinoff_prover]
pub fn compute_shell_reuse_key(cwd: &str, line: &str) -> (r: String)
    ensures
        r@ == command_key_text(cwd@, PayloadView::Shell(line@)),
        r@.len() == 64,
{
    let mut buffer: Vec<u8> = Vec::new();
    buffer.push(0xFFu8);
    let fields = vec![String::from_str(line)];
    push_key_input(&mut buffer, cwd, fields.as_slice());
    assert(fields@.map_values(|f: String| f@) =~= seq![line@]);
    assert(buffer@ =~= payload_key_input(cwd@, PayloadView::Shell(line@)));
    let digest = sha256_digest(buffer.as_slice());
    hex_encode(digest.as_slice())
}

/// A window's reuse key.
#[derive(Clone, Debug, PartialEq, Eq)]
pub struct ReuseKey(String);

impl View for ReuseKey {
    type V = Seq<char>;

    closed spec fn view(&self) -> Seq<char> {
        self.0@
    }
}

impl ReuseKey {
    /// The key for a command: its working directory and payload, with a
    /// shell command line kept apart from any argument vector.
    pub fn from_command_spec(spec: &CommandSpec) -> (r: ReuseKey)
        ensures
            r@ == command_key_text(spec@.cwd, spec@.payload),
    {
        match spec.payload() {
            CommandPayload::Argv(argv) => ReuseKey(compute_reuse_key(spec.cwd(), argv.as_slice())),
            CommandPayload::Shell(line) => ReuseKey(compute_shell_reuse_key(spec.cwd(), line.as_str())),
        }
    }

    /// The key's text.
    pub fn as_str(&self) -> (r: &str)
        ensures
            r@ == self@,
    {
        self.0.as_str()
    }
}

// ---------------------------------------------------------------------------
// Laws.

/// The text holds no NUL character.
pub open spec fn nul_free(s: Seq<char>) -> bool {
    !s.contains('\0')
}

proof fn lemma_scalar_bytes_nonzero(v: u32)
    requires
        1 <= v <= 0x10FFFF,
    ensures
        !vstd::utf8::encode_scalar(v).contains(0u8),
{
    let e = vstd::utf8::encode_scalar(v);
    if vstd::utf8::has_width_1_encoding(v) {
        assert((v & 0x7F) as u8 != 0) by (bit_vector)
            requires
                1 <= v <= 0x7F,
        ;
        assert(e =~= seq![(v & 0x7F) as u8]);
    } else {
        assert(forall|x: u8| #[trigger] (0xC0u8 | x) != 0) by (bit_vector);
        assert(forall|x: u8| #[trigger] (0xE0u8 | x) != 0) by (bit_vector);
        assert(forall|x: u8| #[trigger] (0xF0u8 | x) != 0) by (bit_vector);
        assert(forall|x: u8| #[trigger] (0x80u8 | x) != 0) by (bit_vector);
    }
    assert(!e.contains(0u8)) by {
        if e.contains(0u8) {
            let k = choose|k: int| 0 <= k < e.len() && e[k] == 0u8;
            assert(e[k] == 0u8);
        }
    }
}

proof fn lemma_encode_nul_free(s: Seq<char>)
    requires
        nul_free(s),
    ensures
        !encode_utf8(s).contains(0u8),
    decreases s.len(),
{
    if s.len() > 0 {
        assert(s[0] != '\0');
        assert(!s.drop_first().contains('\0')) by {
            if s.drop_first().contains('\0') {
                let k = choose|k: int| 0 <= k < s.drop_first().len() && s.drop_first()[k] == '\0';
                assert(s[k + 1] == '\0');
            }
        }
        lemma_encode_nul_free(s.drop_first());
        let c = s[0] as u32;
        vstd::utf8::char_is_scalar(s[0]);
        assert(c != 0) by {
            if c == 0 {
                vstd::utf8::char_u32_cast(s[0], c);
                vstd::utf8::char_u32_cast('\0', 0u32);
                assert(s[0] == '\0');
            }
        }
        lemma_scalar_bytes_nonzero(c);
        let head = vstd::utf8::encode_scalar(c);
        let tail = encode_utf8(s.drop_first());
        let all = head + tail;
        assert(!all.contains(0u8)) by {
            if all.contains(0u8) {
                let k = choose|k: int| 0 <= k < all.len() && all[k] == 0u8;
                if k < head.len() {
                    assert(head[k] == 0u8);
                } else {
                    assert(tail[k - head.len()] == 0u8);
                }
            }
        }
    }
}

/// The fields hold no zero byte.
pub open spec fn fields_zero_free(fields: Seq<Seq<u8>>) -> bool {
    forall|i: int| 0 <= i < fields.len() ==> !(#[trigger] fields[i]).contains(0u8)
}

proof fn lemma_nul_terminated_shape(fields: Seq<Seq<u8>>)
    ensures
        fields.len() == 0 <==> nul_terminated(fields).len() == 0,
        fields.len() > 0 ==> nul_terminated(fields).last() == 0u8,
{
}

#[verifier::spinoff_prover]
proof fn lemma_nul_terminated_injective(a: Seq<Seq<u8>>, b: Seq<Seq<u8>>)
    requires
        fields_zero_free(a),
        fields_zero_free(b),
        nul_terminated(a) == nul_terminated(b),
    ensures
        a == b,
    decreases a.len(),
{
    lemma_nul_terminated_shape(a);
    lemma_nul_terminated_shape(b);
    if a.len() == 0 {
        assert(b.len() == 0);
        assert(a =~= b);
    } else {
        let x = nul_terminated(a.drop_last());
        let y = nul_terminated(b.drop_last());
        let fa = a.last();
        let fb = b.last();
        let whole_a = x + fa;
        let whole_b = y + fb;
        assert(nul_terminated(a) == whole_a + seq![0u8]);
        assert(nul_terminated(b) == whole_b + seq![0u8]);
        assert(whole_a =~= nul_terminated(a).drop_last());
        assert(whole_b =~= nul_terminated(b).drop_last());
        assert(whole_a == whole_b);
        assert(!fa.contains(0u8)) by {
            assert(a[a.len() - 1] == fa);
        }
        assert(!fb.contains(0u8)) by {
            assert(b[b.len() - 1] == fb);
        }
        lemma_nul_terminated_shape(a.drop_last());
        lemma_nul_terminated_shape(b.drop_last());
        if fa.len() < fb.len() {
            // the zero that ends `x` falls inside `fb`
            assert(x.len() > 0);
            let p = x.len() - 1;
            assert(whole_a[p] == 0u8);
            assert(fb[p - y.len()] == whole_b[p]);
            assert(false);
        } else if fb.len() < fa.len() {
            assert(y.len() > 0);
            let p = y.len() - 1;
            assert(whole_b[p] == 0u8);
            assert(fa[p - x.len()] == whole_a[p]);
            assert(false);
        }
        assert(fa =~= whole_a.skip(x.len() as int));
        assert(fb =~= whole_b.skip(y.len() as int));
        assert(x =~= whole_a.take(x.len() as int));
        assert(y =~= whole_b.take(y.len() as int));
        assert(fields_zero_free(a.drop_last())) by {
            assert forall|i: int| 0 <= i < a.drop_last().len() implies !(
            #[trigger] a.drop_last()[i]).contains(0u8) by {
                assert(a.drop_last()[i] == a[i]);
            }
        }
        assert(fields_zero_free(b.drop_last())) by {
            assert forall|i: int| 0 <= i < b.drop_last().len() implies !(
            #[trigger] b.drop_last()[i]).contains(0u8) by {
                assert(b.drop_last()[i] == b[i]);
            }
        }
        lemma_nul_terminated_injective(a.drop_last(), b.drop_last());
        assert(a =~= a.drop_last().push(fa));
        assert(b =~= b.drop_last().push(fb));
    }
}

proof fn lemma_encode_injective(s: Seq<char>, t: Seq<char>)
    requires
        encode_utf8(s) == encode_utf8(t),
    ensures
        s == t,
{
    vstd::utf8::encode_utf8_decode_utf8(s);
    vstd::utf8::encode_utf8_decode_utf8(t);
}

/// The hashed input tells commands apart: for texts without NUL characters
/// (which a working directory and command arguments cannot hold), two
/// launches hash the same bytes only when they have the same working
/// directory and the same command fields. So a window tagged for one command
/// and directory is never selected by its key for another, short of a SHA-256
/// collision.
pub proof fn reuse_key_input_identifies_command(
    cwd: Seq<char>,
    fields: Seq<Seq<char>>,
    other_cwd: Seq<char>,
    other_fields: Seq<Seq<char>>,
)
    requires
        nul_free(cwd),
        nul_free(other_cwd),
        forall|i: int| 0 <= i < fields.len() ==> nul_free(#[trigger] fields[i]),
        forall|i: int| 0 <= i < other_fields.len() ==> nul_free(#[trigger] other_fields[i]),
        reuse_key_input(cwd, fields) == reuse_key_input(other_cwd, other_fields),
    ensures
        cwd == other_cwd,
        fields == other_fields,
{
    let a = seq![encode_utf8(cwd)] + fields.map_values(|f: Seq<char>| encode_utf8(f));
    let b = seq![encode_utf8(other_cwd)] + other_fields.map_values(|f: Seq<char>| encode_utf8(f));
    lemma_encode_nul_free(cwd);
    lemma_encode_nul_free(other_cwd);
    assert forall|i: int| 0 <= i < a.len() implies !(#[trigger] a[i]).contains(0u8) by {
        if i > 0 {
            lemma_encode_nul_free(fields[i - 1]);
        }
    }
    assert forall|i: int| 0 <= i < b.len() implies !(#[trigger] b[i]).contains(0u8) by {
        if i > 0 {
            lemma_encode_nul_free(other_fields[i - 1]);
        }
    }
    lemma_nul_terminated_injective(a, b);
    assert(a[0] == b[0]);
    lemma_encode_injective(cwd, other_cwd);
    assert(fields.len() == other_fields.len()) by {
        assert(a.len() == b.len());
    }
    assert forall|i: int| 0 <= i < fields.len() implies fields[i] == other_fields[i] by {
        assert(a[i + 1] == b[i + 1]);
        lemma_encode_injective(fields[i], other_fields[i]);
    }
    assert(fields =~= other_fields);
}

proof fn lemma_leading_byte_not_marker(s: Seq<char>)
    requires
        s.len() > 0,
    ensures
        encode_utf8(s).len() > 0,
        encode_utf8(s)[0] != shell_marker(),
{
    let v = s[0] as u32;
    let e = vstd::utf8::encode_scalar(v);
    assert(encode_utf8(s) == e + encode_utf8(s.drop_first()));
    if vstd::utf8::has_width_1_encoding(v) {
        assert(vstd::utf8::leading_byte_width_1(v) != 0xFFu8) by (bit_vector);
    } else if vstd::utf8::has_width_2_encoding(v) {
        assert(vstd::utf8::leading_byte_width_2(v) != 0xFFu8) by (bit_vector);
    } else if vstd::utf8::has_width_3_encoding(v) {
        assert(vstd::utf8::leading_byte_width_3(v) != 0xFFu8) by (bit_vector);
    } else {
        assert(vstd::utf8::leading_byte_width_4(v) != 0xFFu8) by (bit_vector);
    }
    assert((e + encode_utf8(s.drop_first()))[0] == e[0]);
}

proof fn lemma_nul_terminated_first(fields: Seq<Seq<u8>>)
    requires
        fields.len() > 0,
    ensures
        nul_terminated(fields).len() > 0,
        nul_terminated(fields)[0] == (fields[0] + seq![0u8])[0],
    decreases fields.len(),
{
    if fields.len() == 1 {
        assert(fields.drop_last() =~= Seq::<Seq<u8>>::empty());
        assert(nul_terminated(fields.drop_last()) == Seq::<u8>::empty());
        assert(fields.last() == fields[0]);
        assert(nul_terminated(fields) =~= fields[0] + seq![0u8]);
    } else {
        lemma_nul_terminated_first(fields.drop_last());
        let head = nul_terminated(fields.drop_last());
        assert(nul_terminated(fields) == head + fields.last() + seq![0u8]);
        assert((head + fields.last() + seq![0u8])[0] == head[0]);
        assert(fields.drop_last()[0] == fields[0]);
    }
}

proof fn lemma_argv_input_not_marked(cwd: Seq<char>, argv: Seq<Seq<char>>)
    ensures
        reuse_key_input(cwd, argv).len() > 0,
        reuse_key_input(cwd, argv)[0] != shell_marker(),
{
    let encoded = seq![encode_utf8(cwd)] + argv.map_values(|f: Seq<char>| encode_utf8(f));
    assert(encoded[0] == encode_utf8(cwd));
    lemma_nul_terminated_first(encoded);
    if cwd.len() > 0 {
        lemma_leading_byte_not_marker(cwd);
    } else {
        assert(encode_utf8(cwd) =~= Seq::<u8>::empty());
        assert((encode_utf8(cwd) + seq![0u8])[0] == 0u8);
    }
}

/// The texts of a payload hold no NUL character.
pub open spec fn payload_nul_free(payload: PayloadView) -> bool {
    match payload {
        PayloadView::Argv(argv) => forall|i: int| 0 <= i < argv.len() ==> nul_free(#[trigger] argv[i]),
        PayloadView::Shell(line) => nul_free(line),
    }
}

/// The hashed input tells commands apart, kinds included: for texts without
/// NUL characters, two launches hash the same bytes only when they have the
/// same working directory and the same payload. A shell command line and an
/// argument vector never share their input, even when the vector holds that
/// line as its only argument.
pub proof fn payload_key_input_identifies_command(
    cwd: Seq<char>,
    payload: PayloadView,
    other_cwd: Seq<char>,
    other_payload: PayloadView,
)
    requires
        nul_free(cwd),
        nul_free(other_cwd),
        payload_nul_free(payload),
        payload_nul_free(other_payload),
        payload_key_input(cwd, payload) == payload_key_input(other_cwd, other_payload),
    ensures
        cwd == other_cwd,
        payload == other_payload,
{
    match (payload, other_payload) {
        (PayloadView::Argv(a), PayloadView::Argv(b)) => {
            reuse_key_input_identifies_command(cwd, a, other_cwd, b);
        },
        (PayloadView::Shell(l), PayloadView::Shell(m)) => {
            let x = reuse_key_input(cwd, seq![l]);
            let y = reuse_key_input(other_cwd, seq![m]);
            assert(x =~= (seq![shell_marker()] + x).drop_first());
            assert(y =~= (seq![shell_marker()] + y).drop_first());
            reuse_key_input_identifies_command(cwd, seq![l], other_cwd, seq![m]);
            assert(seq![l][0] == seq![m][0]);
        },
        (PayloadView::Argv(a), PayloadView::Shell(m)) => {
            lemma_argv_input_not_marked(cwd, a);
            assert((seq![shell_marker()] + reuse_key_input(other_cwd, seq![m]))[0] == shell_marker());
        },
        (PayloadView::Shell(l), PayloadView::Argv(b)) => {
            lemma_argv_input_not_marked(other_cwd, b);
            assert((seq![shell_marker()] + reuse_key_input(cwd, seq![l]))[0] == shell_marker());
        },
    }
}

/// A reuse key is 64 lowercase hexadecimal digits.
pub proof fn reuse_key_is_lowercase_hex(cwd: Seq<char>, fields: Seq<Seq<char>>)
    ensures
        forall|i: int|
            0 <= i < reuse_key_text(cwd, fields).len() ==> is_lower_hex_digit(
                #[trigger] reuse_key_text(cwd, fields)[i],
            ),
{
    lemma_hex_text_digits(sha256(reuse_key_input(cwd, fields)));
}

/// A lowercase hexadecimal digit.
pub open spec fn is_lower_hex_digit(c: char) -> bool {
    ('0' <= c <= '9') || ('a' <= c <= 'f')
}

proof fn lemma_hex_text_digits(bytes: Seq<u8>)
    ensures
        forall|i: int| 0 <= i < hex_text(bytes).len() ==> is_lower_hex_digit(#[trigger] hex_text(bytes)[i]),
        hex_text(bytes).len() == 2 * bytes.len(),
    decreases bytes.len(),
{
    if bytes.len() > 0 {
        lemma_hex_text_digits(bytes.drop_last());
        let prev = hex_text(bytes.drop_last());
        let hi = hex_digit((bytes.last() / 16) as nat);
        let lo = hex_digit((bytes.last() % 16) as nat);
        assert(is_lower_hex_digit(hi));
        assert(is_lower_hex_digit(lo));
        let all = prev + seq![hi, lo];
        assert forall|i: int| 0 <= i < all.len() implies is_lower_hex_digit(#[trigger] all[i]) by {
            if i < prev.len() {
                assert(all[i] == prev[i]);
            }
        }
    }
}

} // verus!
