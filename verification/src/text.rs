//! Text as a sequence of characters: reading the characters of a string,
//! cutting a command text into its fields, matching a word without regard to
//! the case of its letters, and ordering texts.

use vstd::prelude::*;
use vstd::string::StrSliceExecFns;

verus! {

/// The characters of a string, in order.
pub fn chars_of(s: &str) -> (chars: Vec<char>)
    ensures
        chars@ == s@,
{
    let mut chars: Vec<char> = Vec::new();
    for c in it: s.chars()
        invariant
            chars@ == it.seq().take(it.index()),
    {
        chars.push(c);
    }
    chars
}

/// A field delimiter, two colons, begins at index `i` of `s`.
pub open spec fn delimiter_at(s: Seq<char>, i: int) -> bool {
    0 <= i && i + 1 < s.len() && s[i] == ':' && s[i + 1] == ':'
}

/// The fields of `s` that begin at or after `start`, where the field that
/// begins at `start` holds no delimiter before `i`. Delimiters are found from
/// the left and do not overlap, so `a:::b` has the fields `a` and `:b`.
pub open spec fn fields_from(s: Seq<char>, start: int, i: int) -> Seq<Seq<char>>
    decreases s.len() - i,
{
    if i < 0 || i + 1 >= s.len() {
        seq![s.subrange(start, s.len() as int)]
    } else if delimiter_at(s, i) {
        seq![s.subrange(start, i)] + fields_from(s, i + 2, i + 2)
    } else {
        fields_from(s, start, i + 1)
    }
}

/// The fields of `s` between its `::` delimiters. A text without a delimiter
/// is one field; the empty text is one empty field.
pub open spec fn fields(s: Seq<char>) -> Seq<Seq<char>> {
    fields_from(s, 0, 0)
}

/// The fields written one after the other, with `::` between each two.
pub open spec fn joined(parts: Seq<Seq<char>>) -> Seq<char>
    decreases parts.len(),
{
    if parts.len() == 0 {
        Seq::empty()
    } else if parts.len() == 1 {
        parts[0]
    } else {
        parts[0] + seq![':', ':'] + joined(parts.drop_first())
    }
}

/// Cutting loses nothing: the fields of a text, joined again, are the text.
pub proof fn lemma_fields_join_back(s: Seq<char>)
    ensures
        fields(s).len() >= 1,
        joined(fields(s)) == s,
{
    lemma_fields_from_join_back(s, 0, 0);
    assert(s.subrange(0, s.len() as int) == s);
}

/// The fields from `start` on, joined again, are the text from `start` on.
pub proof fn lemma_fields_from_join_back(s: Seq<char>, start: int, i: int)
    requires
        0 <= start <= i <= s.len(),
    ensures
        fields_from(s, start, i).len() >= 1,
        joined(fields_from(s, start, i)) == s.subrange(start, s.len() as int),
    decreases s.len() - i,
{
    if i + 1 >= s.len() {
    } else if delimiter_at(s, i) {
        lemma_fields_from_join_back(s, i + 2, i + 2);
        let first = s.subrange(start, i);
        let rest = fields_from(s, i + 2, i + 2);
        let all = seq![first] + rest;
        assert(all.drop_first() == rest);
        assert(all[0] == first);
        assert(first + seq![':', ':'] + s.subrange(i + 2, s.len() as int) == s.subrange(
            start,
            s.len() as int,
        ));
    } else {
        lemma_fields_from_join_back(s, start, i + 1);
    }
}

/// `s` holds no delimiter, and does not end in a colon that would make one
/// with a delimiter written behind it.
pub open spec fn is_plain_field(s: Seq<char>) -> bool {
    &&& forall|i: int| !delimiter_at(s, i)
    &&& s.len() > 0 ==> s.last() != ':'
}

/// A text without a delimiter is one field.
pub proof fn lemma_fields_of_one(s: Seq<char>, i: int)
    requires
        forall|k: int| !delimiter_at(s, k),
        0 <= i <= s.len(),
    ensures
        fields_from(s, 0, i) == seq![s],
    decreases s.len() - i,
{
    if i + 1 >= s.len() {
        assert(s.subrange(0, s.len() as int) == s);
    } else {
        assert(!delimiter_at(s, i));
        lemma_fields_of_one(s, i + 1);
    }
}

/// The fields of a text do not depend on what stands before the field that
/// is being cut.
pub proof fn lemma_fields_shift(before: Seq<char>, s: Seq<char>, start: int, i: int)
    requires
        0 <= start <= i <= s.len(),
    ensures
        fields_from(before + s, before.len() + start, before.len() + i) == fields_from(
            s,
            start,
            i,
        ),
    decreases s.len() - i,
{
    let whole = before + s;
    let n = before.len() as int;
    if i + 1 >= s.len() {
        assert(whole.subrange(n + start, whole.len() as int) == s.subrange(start, s.len() as int));
    } else {
        assert(whole[n + i] == s[i]);
        assert(whole[n + i + 1] == s[i + 1]);
        if delimiter_at(s, i) {
            assert(delimiter_at(whole, n + i));
            assert(whole.subrange(n + start, n + i) == s.subrange(start, i));
            lemma_fields_shift(before, s, i + 2, i + 2);
        } else {
            assert(!delimiter_at(whole, n + i));
            lemma_fields_shift(before, s, start, i + 1);
        }
    }
}

/// A plain field, a delimiter and a text: the fields are the plain field and
/// the fields of the text.
pub proof fn lemma_fields_of_joined(head: Seq<char>, rest: Seq<char>)
    requires
        is_plain_field(head),
    ensures
        fields(head + seq![':', ':'] + rest) == seq![head] + fields(rest),
{
    let before = head + seq![':', ':'];
    let whole = before + rest;
    lemma_fields_reach_delimiter(head, rest, 0);
    assert(delimiter_at(whole, head.len() as int)) by {
        assert(whole[head.len() as int] == ':');
        assert(whole[head.len() as int + 1] == ':');
    }
    assert(whole.subrange(0, head.len() as int) == head);
    lemma_fields_shift(before, rest, 0, 0);
}

/// Within a plain field that a delimiter follows, no delimiter is found
/// before that one.
proof fn lemma_fields_reach_delimiter(head: Seq<char>, rest: Seq<char>, i: int)
    requires
        is_plain_field(head),
        0 <= i <= head.len(),
    ensures
        fields_from(head + seq![':', ':'] + rest, 0, i) == fields_from(
            head + seq![':', ':'] + rest,
            0,
            head.len() as int,
        ),
    decreases head.len() - i,
{
    let whole = head + seq![':', ':'] + rest;
    if i < head.len() {
        assert(whole[i] == head[i]);
        if i + 1 < head.len() {
            assert(whole[i + 1] == head[i + 1]);
            assert(!delimiter_at(head, i));
        } else {
            assert(head[i] == head.last());
        }
        assert(!delimiter_at(whole, i));
        lemma_fields_reach_delimiter(head, rest, i + 1);
    }
}

/// A kind, a time and a task that hold no delimiter, written with `::`
/// between them, are the three fields of the text.
pub proof fn lemma_fields_of_three(kind: Seq<char>, time: Seq<char>, task: Seq<char>)
    requires
        is_plain_field(kind),
        is_plain_field(time),
        forall|i: int| !delimiter_at(task, i),
    ensures
        fields(kind + seq![':', ':'] + time + seq![':', ':'] + task) == seq![kind, time, task],
{
    let tail = time + seq![':', ':'] + task;
    lemma_fields_of_joined(kind, tail);
    lemma_fields_of_joined(time, task);
    lemma_fields_of_one(task, 0);
    assert(kind + seq![':', ':'] + time + seq![':', ':'] + task == kind + seq![':', ':'] + tail);
    assert(seq![kind] + (seq![time] + seq![task]) == seq![kind, time, task]);
}

/// Cuts a text into the fields between its `::` delimiters.
pub fn split_fields(s: &str) -> (parts: Vec<String>)
    ensures
        parts@.len() == fields(s@).len(),
        forall|k: int| 0 <= k < parts@.len() ==> (#[trigger] parts@[k])@ == fields(s@)[k],
{
    let chars = chars_of(s);
    let n = chars.len();
    let mut parts: Vec<String> = Vec::new();
    let mut start: usize = 0;
    let mut i: usize = 0;
    let ghost mut done: Seq<Seq<char>> = Seq::empty();
    while i < n && i + 1 < n
        invariant
            chars@ == s@,
            n == chars@.len(),
            start <= i <= n,
            parts@.len() == done.len(),
            forall|k: int| 0 <= k < parts@.len() ==> (#[trigger] parts@[k])@ == done[k],
            fields(s@) == done + fields_from(s@, start as int, i as int),
        decreases n - i,
    {
        if chars[i] == ':' && chars[i + 1] == ':' {
            let part = s.substring_char(start, i).to_owned();
            parts.push(part);
            proof {
                let next = done.push(s@.subrange(start as int, i as int));
                assert(next + fields_from(s@, i + 2, i + 2) == done + fields_from(
                    s@,
                    start as int,
                    i as int,
                ));
                done = next;
            }
            i = i + 2;
            start = i;
        } else {
            i = i + 1;
        }
    }
    let part = s.substring_char(start, n).to_owned();
    parts.push(part);
    proof {
        assert(fields_from(s@, start as int, i as int) == seq![
            s@.subrange(start as int, n as int),
        ]);
        assert(fields(s@) == done.push(s@.subrange(start as int, n as int)));
    }
    parts
}

/// `c` is the character `p`, or the ASCII capital letter whose small letter
/// is `p`.
pub open spec fn same_letter(c: char, p: char) -> bool {
    c == p || (0x41 <= c as u32 <= 0x5a && c as u32 + 0x20 == p as u32)
}

/// `token` spells `word`, the case of ASCII letters apart. `word` is written
/// in small letters.
pub open spec fn spells(token: Seq<char>, word: Seq<char>) -> bool {
    &&& token.len() == word.len()
    &&& forall|i: int| 0 <= i < word.len() ==> same_letter(#[trigger] token[i], word[i])
}

/// `c` is an ASCII capital letter.
pub open spec fn is_capital(c: char) -> bool {
    0x41 <= c as u32 <= 0x5a
}

/// `a` and `b` are the same character, or the same ASCII letter in two cases.
pub open spec fn same_apart_from_case(a: char, b: char) -> bool {
    a == b || (is_capital(a) && a as u32 + 0x20 == b as u32) || (is_capital(b) && b as u32 + 0x20
        == a as u32)
}

/// `a` and `b` are the same text, the case of ASCII letters apart.
pub open spec fn same_text_apart_from_case(a: Seq<char>, b: Seq<char>) -> bool {
    &&& a.len() == b.len()
    &&& forall|i: int| 0 <= i < a.len() ==> same_apart_from_case(#[trigger] a[i], b[i])
}

/// Whether a token spells a word does not depend on the case of the token's
/// letters, as long as the word itself has no capital letter.
pub proof fn lemma_spelling_ignores_case(a: Seq<char>, b: Seq<char>, word: Seq<char>)
    requires
        same_text_apart_from_case(a, b),
        forall|i: int| 0 <= i < word.len() ==> !is_capital(#[trigger] word[i]),
    ensures
        spells(a, word) == spells(b, word),
{
    if a.len() == word.len() {
        if spells(a, word) {
            assert forall|i: int| 0 <= i < word.len() implies same_letter(
                #[trigger] b[i],
                word[i],
            ) by {
                assert(same_letter(a[i], word[i]));
                assert(same_apart_from_case(a[i], b[i]));
                assert(!is_capital(word[i]));
                vstd::utf8::char_u32_cast(a[i], a[i] as u32);
                vstd::utf8::char_u32_cast(b[i], b[i] as u32);
                vstd::utf8::char_u32_cast(word[i], word[i] as u32);
            }
        }
        if spells(b, word) {
            assert forall|i: int| 0 <= i < word.len() implies same_letter(
                #[trigger] a[i],
                word[i],
            ) by {
                assert(same_letter(b[i], word[i]));
                assert(same_apart_from_case(a[i], b[i]));
                assert(!is_capital(word[i]));
                vstd::utf8::char_u32_cast(a[i], a[i] as u32);
                vstd::utf8::char_u32_cast(b[i], b[i] as u32);
                vstd::utf8::char_u32_cast(word[i], word[i] as u32);
            }
        }
    }
}

/// Tells whether `token` spells `word`, the case of ASCII letters apart.
pub fn is_word(token: &str, word: &str) -> (r: bool)
    ensures
        r == spells(token@, word@),
{
    let t = chars_of(token);
    let w = chars_of(word);
    if t.len() != w.len() {
        return false;
    }
    let mut i: usize = 0;
    while i < w.len()
        invariant
            t@ == token@,
            w@ == word@,
            t@.len() == w@.len(),
            i <= w@.len(),
            forall|k: int| 0 <= k < i ==> same_letter(#[trigger] t@[k], w@[k]),
        decreases w@.len() - i,
    {
        let c = t[i];
        let p = w[i];
        let capital: bool = 0x41 <= c as u32 && c as u32 <= 0x5a;
        if !(c == p || (capital && c as u32 + 0x20 == p as u32)) {
            assert(!same_letter(t@[i as int], w@[i as int]));
            return false;
        }
        i = i + 1;
    }
    true
}

/// `a` comes at or before `b` where the two are compared byte by byte from
/// index `i` on, a shorter sequence coming before each of its extensions.
pub open spec fn bytes_ordered_from(a: Seq<u8>, b: Seq<u8>, i: int) -> bool
    decreases a.len() - i,
{
    if i < 0 || i >= a.len() {
        true
    } else if i >= b.len() {
        false
    } else if a[i] != b[i] {
        a[i] < b[i]
    } else {
        bytes_ordered_from(a, b, i + 1)
    }
}

/// `a` comes at or before `b` in the order of their UTF-8 bytes, which is the
/// order of their characters' code points.
pub open spec fn text_at_or_before(a: Seq<char>, b: Seq<char>) -> bool {
    bytes_ordered_from(vstd::utf8::encode_utf8(a), vstd::utf8::encode_utf8(b), 0)
}

/// Tells whether `a` comes at or before `b` in the order of their UTF-8 bytes.
pub fn is_text_at_or_before(a: &str, b: &str) -> (r: bool)
    ensures
        r == text_at_or_before(a@, b@),
{
    let x = a.as_bytes();
    let y = b.as_bytes();
    let mut i: usize = 0;
    while i < x.len() && i < y.len()
        invariant
            x@ == vstd::utf8::encode_utf8(a@),
            y@ == vstd::utf8::encode_utf8(b@),
            i <= x@.len(),
            i <= y@.len(),
            bytes_ordered_from(x@, y@, 0) == bytes_ordered_from(x@, y@, i as int),
        decreases x@.len() - i,
    {
        if x[i] != y[i] {
            return x[i] < y[i];
        }
        i = i + 1;
    }
    i >= x.len()
}

/// Of two byte sequences, one comes at or before the other.
pub proof fn lemma_bytes_order_total(a: Seq<u8>, b: Seq<u8>, i: int)
    ensures
        bytes_ordered_from(a, b, i) || bytes_ordered_from(b, a, i),
    decreases a.len() - i,
{
    if 0 <= i < a.len() && i < b.len() && a[i] == b[i] {
        lemma_bytes_order_total(a, b, i + 1);
    }
}

/// The byte order passes on: from `a` to `b` and from `b` to `c` means from
/// `a` to `c`.
pub proof fn lemma_bytes_order_transitive(a: Seq<u8>, b: Seq<u8>, c: Seq<u8>, i: int)
    requires
        bytes_ordered_from(a, b, i),
        bytes_ordered_from(b, c, i),
    ensures
        bytes_ordered_from(a, c, i),
    decreases a.len() - i,
{
    if 0 <= i < a.len() && a[i] == b[i] && b[i] == c[i] {
        lemma_bytes_order_transitive(a, b, c, i + 1);
    }
}

} // verus!
