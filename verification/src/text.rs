//! Text as a sequence of characters: order, trimming, folding and joining.

use vstd::prelude::*;
use vstd::string::*;
use vstd::utf8::*;

verus! {

broadcast use {vstd::string::group_string_axioms, vstd::seq::group_seq_axioms};

/// Unicode's `White_Space` property.
pub open spec fn is_white(c: char) -> bool {
    let u = c as int;
    ||| 0x9 <= u <= 0xd
    ||| u == 0x20
    ||| u == 0x85
    ||| u == 0xa0
    ||| u == 0x1680
    ||| 0x2000 <= u <= 0x200a
    ||| u == 0x2028
    ||| u == 0x2029
    ||| u == 0x202f
    ||| u == 0x205f
    ||| u == 0x3000
}

/// `char::is_whitespace` of the standard library: true exactly on the characters
/// with the Unicode `White_Space` property, which are the ones listed in `is_white`.
pub assume_specification[ char::is_whitespace ](c: char) -> (white: bool)
    ensures
        white == is_white(c),
;

/// `String::push` of the standard library: appends one character.
pub assume_specification[ String::push ](text: &mut String, c: char)
    ensures
        final(text)@ == old(text)@.push(c),
;

/// Lexicographic order by code point, which is also the order of the UTF-8 bytes.
pub open spec fn precedes(a: Seq<char>, b: Seq<char>) -> bool
    decreases a.len(),
{
    if b.len() == 0 {
        false
    } else if a.len() == 0 {
        true
    } else if a[0] != b[0] {
        (a[0] as int) < (b[0] as int)
    } else {
        precedes(a.skip(1), b.skip(1))
    }
}

/// Nothing comes before itself.
pub proof fn precedes_irreflexive(a: Seq<char>)
    ensures
        !precedes(a, a),
    decreases a.len(),
{
    if a.len() > 0 {
        precedes_irreflexive(a.skip(1));
    }
}

/// The order is transitive.
pub proof fn precedes_transitive(a: Seq<char>, b: Seq<char>, c: Seq<char>)
    requires
        precedes(a, b),
        precedes(b, c),
    ensures
        precedes(a, c),
    decreases a.len(),
{
    if a.len() > 0 && b.len() > 0 && c.len() > 0 && a[0] == b[0] && b[0] == c[0] {
        precedes_transitive(a.skip(1), b.skip(1), c.skip(1));
    }
}

/// Of two different texts one comes before the other.
pub proof fn precedes_total(a: Seq<char>, b: Seq<char>)
    ensures
        precedes(a, b) || precedes(b, a) || a == b,
    decreases a.len(),
{
    if a.len() > 0 && b.len() > 0 {
        if a[0] == b[0] {
            precedes_total(a.skip(1), b.skip(1));
            if a.skip(1) == b.skip(1) {
                assert(a =~= seq![a[0]] + a.skip(1));
                assert(b =~= seq![b[0]] + b.skip(1));
            }
        } else {
            assert(a[0] as int != b[0] as int);
        }
    } else if a.len() == 0 && b.len() == 0 {
        assert(a =~= b);
    }
}

/// The characters of a text.
pub fn chars_of(text: &str) -> (chars: Vec<char>)
    ensures
        chars@ == text@,
{
    let mut chars: Vec<char> = Vec::new();
    for c in iter: text.chars()
        invariant
            iter.seq() == text@,
            chars@ == text@.take(iter.index()),
    {
        chars.push(c);
        assert(chars@ =~= text@.take(iter.index() + 1));
    }
    assert(text@.take(text@.len() as int) =~= text@);
    chars
}

/// The text that a run of characters spells.
pub fn text_of(chars: &[char]) -> (text: String)
    ensures
        text@ == chars@,
{
    let mut text: String = String::new();
    let mut i: usize = 0;
    while i < chars.len()
        invariant
            i <= chars@.len(),
            text@ == chars@.take(i as int),
        decreases chars@.len() - i,
    {
        text.push(chars[i]);
        i += 1;
        assert(text@ =~= chars@.take(i as int));
    }
    assert(chars@.take(i as int) =~= chars@);
    text
}

/// Whether `a` comes before `b`.
pub fn is_before(a: &str, b: &str) -> (before: bool)
    ensures
        before == precedes(a@, b@),
{
    let left: Vec<char> = chars_of(a);
    let right: Vec<char> = chars_of(b);
    let mut i: usize = 0;
    assert(a@.skip(0) =~= a@ && b@.skip(0) =~= b@);
    while i < left.len() && i < right.len()
        invariant
            left@ == a@,
            right@ == b@,
            i <= left@.len(),
            i <= right@.len(),
            precedes(a@, b@) == precedes(a@.skip(i as int), b@.skip(i as int)),
        decreases left@.len() - i,
    {
        if left[i] != right[i] {
            return left[i] < right[i];
        }
        assert(a@.skip(i as int).skip(1) =~= a@.skip(i + 1));
        assert(b@.skip(i as int).skip(1) =~= b@.skip(i + 1));
        i += 1;
    }
    i < right.len()
}

/// The same bytes are the same text.
pub proof fn bytes_tell_texts_apart(a: Seq<char>, b: Seq<char>)
    ensures
        encode_utf8(a) == encode_utf8(b) <==> a == b,
{
    encode_utf8_decode_utf8(a);
    encode_utf8_decode_utf8(b);
}

/// Whether two texts are the same characters.
pub fn same_text(a: &str, b: &str) -> (same: bool)
    ensures
        same == (a@ == b@),
{
    proof {
        bytes_tell_texts_apart(a@, b@);
    }
    let left: &[u8] = a.as_bytes();
    let right: &[u8] = b.as_bytes();
    if left.len() != right.len() {
        return false;
    }
    let mut i: usize = 0;
    while i < left.len()
        invariant
            i <= left@.len(),
            left@.len() == right@.len(),
            forall|k: int| 0 <= k < i ==> left@[k] == right@[k],
            left@ == right@ <==> a@ == b@,
        decreases left@.len() - i,
    {
        if left[i] != right[i] {
            return false;
        }
        i += 1;
    }
    assert(left@ =~= right@);
    true
}

/// What is left of `s` once leading white space is gone.
pub open spec fn trimmed_start(s: Seq<char>) -> Seq<char>
    decreases s.len(),
{
    if s.len() > 0 && is_white(s[0]) {
        trimmed_start(s.skip(1))
    } else {
        s
    }
}

/// What is left of `s` once trailing white space is gone.
pub open spec fn trimmed_end(s: Seq<char>) -> Seq<char>
    decreases s.len(),
{
    if s.len() > 0 && is_white(s.last()) {
        trimmed_end(s.drop_last())
    } else {
        s
    }
}

/// `s` without the white space at either end.
pub open spec fn trimmed(s: Seq<char>) -> Seq<char> {
    trimmed_end(trimmed_start(s))
}

/// The text without the white space at either end.
pub fn trim(text: &str) -> (kept: String)
    ensures
        kept@ == trimmed(text@),
{
    let chars: Vec<char> = chars_of(text);
    let mut from: usize = 0;
    assert(text@.skip(0) =~= text@);
    while from < chars.len() && chars[from].is_whitespace()
        invariant
            chars@ == text@,
            from <= chars@.len(),
            trimmed_start(text@) == trimmed_start(text@.skip(from as int)),
        decreases chars@.len() - from,
    {
        assert(text@.skip(from as int).skip(1) =~= text@.skip(from + 1));
        from += 1;
    }
    let ghost kept_start = text@.skip(from as int);
    let mut to: usize = chars.len();
    assert(text@.subrange(from as int, to as int) =~= kept_start);
    while from < to && chars[to - 1].is_whitespace()
        invariant
            chars@ == text@,
            from <= to <= chars@.len(),
            kept_start == text@.skip(from as int),
            trimmed_end(kept_start) == trimmed_end(text@.subrange(from as int, to as int)),
        decreases to - from,
    {
        assert(text@.subrange(from as int, to as int).drop_last() =~= text@.subrange(
            from as int,
            to - 1,
        ));
        to -= 1;
    }
    text_of(&chars[from..to])
}

/// How many characters come before the first white space.
pub open spec fn run_len(s: Seq<char>) -> nat
    decreases s.len(),
{
    if s.len() == 0 || is_white(s[0]) {
        0
    } else {
        1 + run_len(s.skip(1))
    }
}

/// A run of characters ends inside the text.
pub proof fn run_len_bound(s: Seq<char>)
    ensures
        run_len(s) <= s.len(),
        s.len() > 0 && !is_white(s[0]) ==> run_len(s) >= 1,
        run_len(s) < s.len() ==> is_white(s[run_len(s) as int]),
        forall|i: int| 0 <= i < run_len(s) ==> !is_white(#[trigger] s[i]),
    decreases s.len(),
{
    if s.len() > 0 && !is_white(s[0]) {
        let rest = s.skip(1);
        run_len_bound(rest);
        assert forall|i: int| 0 <= i < run_len(s) implies !is_white(#[trigger] s[i]) by {
            if i > 0 {
                assert(rest[i - 1] == s[i]);
            }
        }
    }
}

/// The maximal runs of characters that hold no white space, in order.
pub open spec fn words(s: Seq<char>) -> Seq<Seq<char>>
    decreases s.len(),
{
    if s.len() == 0 {
        seq![]
    } else if is_white(s[0]) {
        words(s.skip(1))
    } else {
        let n = run_len(s) as int;
        if 1 <= n <= s.len() {
            seq![s.take(n)] + words(s.skip(n))
        } else {
            seq![]
        }
    }
}

/// A run of characters that holds no white space.
pub open spec fn is_word(s: Seq<char>) -> bool {
    &&& s.len() > 0
    &&& forall|i: int| 0 <= i < s.len() ==> !is_white(#[trigger] s[i])
}

/// Whether every part is a word.
pub open spec fn all_words(parts: Seq<Seq<char>>) -> bool {
    forall|k: int| 0 <= k < parts.len() ==> is_word(#[trigger] parts[k])
}

/// The words of a text are words.
pub proof fn words_are_words(s: Seq<char>)
    ensures
        all_words(words(s)),
    decreases s.len(),
{
    if s.len() > 0 {
        if is_white(s[0]) {
            words_are_words(s.skip(1));
        } else {
            run_len_bound(s);
            let n = run_len(s) as int;
            words_are_words(s.skip(n));
            let rest = words(s.skip(n));
            assert forall|k: int| 0 <= k < words(s).len() implies is_word(#[trigger] words(s)[k]) by {
                if k == 0 {
                    assert(words(s)[0] == s.take(n));
                } else {
                    assert(words(s)[k] == rest[k - 1]);
                }
            }
        }
    }
}

proof fn run_ends_at_white(s: Seq<char>, t: Seq<char>)
    requires
        t.len() > 0,
        is_white(t[0]),
    ensures
        run_len(s + t) == run_len(s),
    decreases s.len(),
{
    if s.len() == 0 {
        assert(s + t =~= t);
    } else {
        assert((s + t)[0] == s[0]);
        if !is_white(s[0]) {
            run_ends_at_white(s.skip(1), t);
            assert((s + t).skip(1) =~= s.skip(1) + t);
        }
    }
}

proof fn word_is_one_run(w: Seq<char>)
    requires
        is_word(w),
    ensures
        words(w) == seq![w],
{
    run_len_bound(w);
    let n = run_len(w) as int;
    assert(!is_white(w[0]));
    if n < w.len() {
        assert(is_white(w[n]));
    }
    assert(w.take(n) =~= w);
    assert(words(w.skip(n)) =~= seq![]);
    assert(words(w) =~= seq![w]);
}

/// A word behind a space is one more word.
proof fn one_more_word(s: Seq<char>, w: Seq<char>)
    requires
        is_word(w),
    ensures
        words(s + seq![' '] + w) == words(s).push(w),
    decreases s.len(),
{
    let t = seq![' '] + w;
    let all = s + seq![' '] + w;
    assert(all =~= s + t);
    if s.len() == 0 {
        assert(all.skip(1) =~= w);
        assert(all[0] == ' ');
        word_is_one_run(w);
        assert(words(s).push(w) =~= seq![w]);
    } else if is_white(s[0]) {
        one_more_word(s.skip(1), w);
        assert(all[0] == s[0]);
        assert(all.skip(1) =~= s.skip(1) + seq![' '] + w);
    } else {
        assert(all[0] == s[0]);
        run_ends_at_white(s, t);
        run_len_bound(s);
        let n = run_len(s) as int;
        assert(run_len(all) == n);
        assert(all.take(n) =~= s.take(n));
        assert(all.skip(n) =~= s.skip(n) + seq![' '] + w);
        one_more_word(s.skip(n), w);
        assert(words(all) =~= words(s).push(w));
    }
}

/// Words that are joined by single spaces are the words of what they are joined to.
pub proof fn joined_words(parts: Seq<Seq<char>>)
    requires
        all_words(parts),
    ensures
        words(joined(parts, seq![' '])) == parts,
    decreases parts.len(),
{
    if parts.len() == 0 {
        assert(words(joined(parts, seq![' '])) =~= parts);
    } else if parts.len() == 1 {
        word_is_one_run(parts[0]);
        assert(seq![parts[0]] =~= parts);
    } else {
        let init = parts.drop_last();
        assert forall|k: int| 0 <= k < init.len() implies is_word(#[trigger] init[k]) by {
            assert(init[k] == parts[k]);
        }
        joined_words(init);
        assert(is_word(parts[parts.len() - 1]));
        one_more_word(joined(init, seq![' ']), parts.last());
        assert(init.push(parts.last()) =~= parts);
    }
}

/// Whether the only white space in a text is a single space between two words.
pub open spec fn single_spaced(s: Seq<char>) -> bool {
    forall|i: int|
        0 <= i < s.len() && is_white(#[trigger] s[i]) ==> s[i] == ' ' && 0 < i < s.len() - 1
            && !is_white(s[i - 1]) && !is_white(s[i + 1])
}

/// Words that are joined by single spaces have no other white space.
pub proof fn joined_words_are_single_spaced(parts: Seq<Seq<char>>)
    requires
        all_words(parts),
    ensures
        single_spaced(joined(parts, seq![' '])),
        parts.len() > 0 ==> joined(parts, seq![' ']).len() > 0 && !is_white(
            joined(parts, seq![' ']).last(),
        ),
    decreases parts.len(),
{
    if parts.len() == 1 {
        assert(is_word(parts[0]));
    } else if parts.len() > 1 {
        let init = parts.drop_last();
        assert forall|k: int| 0 <= k < init.len() implies is_word(#[trigger] init[k]) by {
            assert(init[k] == parts[k]);
        }
        joined_words_are_single_spaced(init);
        let head = joined(init, seq![' ']);
        let last = parts[parts.len() - 1];
        assert(is_word(last));
        let all = joined(parts, seq![' ']);
        assert(all == head + seq![' '] + last);
        assert forall|i: int| 0 <= i < all.len() && is_white(#[trigger] all[i]) implies all[i] == ' '
            && 0 < i < all.len() - 1 && !is_white(all[i - 1]) && !is_white(all[i + 1]) by {
            if i < head.len() {
                assert(all[i] == head[i]);
                assert(is_white(head[i]));
                assert(all[i - 1] == head[i - 1]);
                assert(all[i + 1] == head[i + 1]);
            } else if i == head.len() {
                assert(all[i - 1] == head.last());
                assert(all[i + 1] == last[0]);
            } else {
                assert(all[i] == last[i - head.len() - 1]);
            }
        }
        assert(all.last() == last[last.len() - 1]);
    }
}

/// The parts in order, with `between` put between each two.
pub open spec fn joined(parts: Seq<Seq<char>>, between: Seq<char>) -> Seq<char>
    decreases parts.len(),
{
    if parts.len() == 0 {
        seq![]
    } else if parts.len() == 1 {
        parts[0]
    } else {
        joined(parts.drop_last(), between) + between + parts.last()
    }
}

/// The views of a list of texts.
pub open spec fn texts(list: Seq<String>) -> Seq<Seq<char>> {
    list.map_values(|t: String| t@)
}

/// The texts in order, with `between` put between each two.
pub fn join(parts: &[String], between: &str) -> (text: String)
    ensures
        text@ == joined(texts(parts@), between@),
{
    let mut text: String = String::new();
    let mut i: usize = 0;
    let ghost all = texts(parts@);
    assert(all.take(0) =~= seq![]);
    while i < parts.len()
        invariant
            i <= parts@.len(),
            all == texts(parts@),
            text@ == joined(all.take(i as int), between@),
        decreases parts@.len() - i,
    {
        let ghost before = all.take(i as int);
        if i > 0 {
            text.append(between);
        }
        text.append(parts[i].as_str());
        i += 1;
        assert(all.take(i as int).drop_last() =~= before);
        assert(all.take(i as int).last() == parts@[i - 1]@);
        if i == 1 {
            assert(before =~= seq![]);
            assert(text@ =~= parts@[0]@);
        }
    }
    assert(all.take(i as int) =~= all);
    text
}

/// The pieces of `s` between the separators, one more than there are separators.
pub open spec fn pieces(s: Seq<char>, on: char) -> Seq<Seq<char>>
    decreases s.len(),
{
    if s.len() == 0 {
        seq![seq![]]
    } else {
        let before = pieces(s.drop_last(), on);
        if s.last() == on {
            before.push(seq![])
        } else {
            before.drop_last().push(before.last().push(s.last()))
        }
    }
}

/// There is always at least one piece.
pub proof fn pieces_nonempty(s: Seq<char>, on: char)
    ensures
        pieces(s, on).len() >= 1,
    decreases s.len(),
{
    if s.len() > 0 {
        pieces_nonempty(s.drop_last(), on);
    }
}

/// Cuts a text at every occurrence of `on`.
pub fn split_on(text: &str, on: char) -> (parts: Vec<String>)
    ensures
        texts(parts@) == pieces(text@, on),
{
    let mut parts: Vec<String> = Vec::new();
    let mut current: String = String::new();
    assert(text@.take(0) =~= seq![]);
    assert(texts(parts@).push(current@) =~= pieces(text@.take(0), on));
    for c in iter: text.chars()
        invariant
            iter.seq() == text@,
            texts(parts@).push(current@) == pieces(text@.take(iter.index()), on),
    {
        let ghost seen = text@.take(iter.index() + 1);
        let ghost was = texts(parts@).push(current@);
        assert(seen.drop_last() =~= text@.take(iter.index()));
        assert(seen.last() == c);
        assert(was.drop_last() =~= texts(parts@));
        if c == on {
            let ghost old_parts = parts@;
            parts.push(current);
            assert(texts(parts@) =~= was);
            current = String::new();
        } else {
            current.push(c);
        }
        assert(texts(parts@).push(current@) =~= pieces(seen, on));
    }
    assert(text@.take(text@.len() as int) =~= text@);
    let ghost was = texts(parts@).push(current@);
    parts.push(current);
    assert(texts(parts@) =~= was);
    parts
}

/// The character of a decimal digit.
pub open spec fn digit_char(d: int) -> char {
    (48 + d) as char
}

/// A number in decimal digits.
pub open spec fn nat_text(n: nat) -> Seq<char>
    decreases n,
{
    if n < 10 {
        seq![digit_char(n as int)]
    } else {
        nat_text(n / 10).push(digit_char((n % 10) as int))
    }
}

/// A number in decimal digits, with a minus sign where it is negative.
pub open spec fn integer_text(n: int) -> Seq<char> {
    if n < 0 {
        seq!['-'] + nat_text((-n) as nat)
    } else {
        nat_text(n as nat)
    }
}

fn push_digits(text: &mut String, n: u64)
    ensures
        final(text)@ == old(text)@ + nat_text(n as nat),
    decreases n,
{
    if n >= 10 {
        push_digits(text, n / 10);
    }
    let digit: u8 = 48 + (n % 10) as u8;
    text.push(digit as char);
    assert(text@ =~= old(text)@ + nat_text(n as nat));
}

/// A number in decimal digits.
pub fn decimal_text(n: i64) -> (text: String)
    ensures
        text@ == integer_text(n as int),
{
    let mut text: String = String::new();
    if n < 0 {
        text.push('-');
        let size: u64 = (-(n as i128)) as u64;
        push_digits(&mut text, size);
    } else {
        push_digits(&mut text, n as u64);
    }
    assert(text@ =~= integer_text(n as int));
    text
}

/// Texts order by the first place where they differ, and a text before every longer one that
/// starts with it.
pub proof fn texts_order_by_their_first_difference(a: Seq<char>, b: Seq<char>, at: int)
    requires
        0 <= at <= a.len(),
        at <= b.len(),
        forall|i: int| 0 <= i < at ==> a[i] == b[i],
        at < a.len() && at < b.len() ==> a[at] != b[at],
        at == a.len() || at == b.len() || a[at] != b[at],
    ensures
        precedes(a, b) <==> at < b.len() && (at == a.len() || (a[at] as int) < (b[at] as int)),
    decreases at,
{
    if at > 0 {
        let x = a.skip(1);
        let y = b.skip(1);
        assert forall|i: int| 0 <= i < at - 1 implies x[i] == y[i] by {
            assert(a[i + 1] == b[i + 1]);
        }
        if at < a.len() {
            assert(x[at - 1] == a[at]);
        }
        if at < b.len() {
            assert(y[at - 1] == b[at]);
        }
        texts_order_by_their_first_difference(x, y, at - 1);
        assert(a[0] == b[0]);
    }
}

/// Trimming takes the white space off both ends and nothing else.
pub proof fn trimming_takes_white_ends(left: Seq<char>, core: Seq<char>, right: Seq<char>)
    requires
        forall|i: int| 0 <= i < left.len() ==> is_white(#[trigger] left[i]),
        forall|i: int| 0 <= i < right.len() ==> is_white(#[trigger] right[i]),
        core.len() > 0 ==> !is_white(core[0]) && !is_white(core.last()),
    ensures
        trimmed(left + core + right) == core,
    decreases left.len() + right.len(),
{
    let all = left + core + right;
    if left.len() > 0 {
        let rest = left.skip(1);
        assert forall|i: int| 0 <= i < rest.len() implies is_white(#[trigger] rest[i]) by {
            assert(rest[i] == left[i + 1]);
        }
        trimming_takes_white_ends(rest, core, right);
        assert(is_white(left[0]));
        assert(all[0] == left[0]);
        assert(all.skip(1) =~= rest + core + right);
    } else if core.len() == 0 {
        if right.len() > 0 {
            let rest = right.skip(1);
            assert forall|i: int| 0 <= i < rest.len() implies is_white(#[trigger] rest[i]) by {
                assert(rest[i] == right[i + 1]);
            }
            trimming_takes_white_ends(left, core, rest);
            assert(is_white(right[0]));
            assert(all[0] == right[0]);
            assert(all.skip(1) =~= left + core + rest);
        } else {
            assert(all =~= core);
        }
    } else {
        assert(all[0] == core[0]);
        assert(trimmed_start(all) == all);
        if right.len() > 0 {
            let rest = right.drop_last();
            assert forall|i: int| 0 <= i < rest.len() implies is_white(#[trigger] rest[i]) by {
                assert(rest[i] == right[i]);
            }
            trimming_takes_white_ends(left, core, rest);
            assert(is_white(right[right.len() - 1]));
            assert(all.last() == right[right.len() - 1]);
            assert(all.drop_last() =~= left + core + rest);
            assert((left + core + rest)[0] == core[0]);
        } else {
            assert(all =~= core);
        }
    }
}

/// White space parts words: the words of a text are those before any white space in it and
/// then those behind it. A run without white space is one word, and nothing has none.
pub proof fn white_space_parts_words(a: Seq<char>, white: char, b: Seq<char>)
    requires
        is_white(white),
    ensures
        words(a + seq![white] + b) == words(a) + words(b),
        a.len() > 0 && (forall|i: int| 0 <= i < a.len() ==> !is_white(#[trigger] a[i])) ==> words(a)
            == seq![a],
        a.len() == 0 ==> words(a).len() == 0,
    decreases a.len(),
{
    let tail = seq![white] + b;
    let all = a + seq![white] + b;
    assert(all =~= a + tail);
    if a.len() == 0 {
        assert(all[0] == white);
        assert(all.skip(1) =~= b);
        assert(words(a) + words(b) =~= words(b));
    } else if is_white(a[0]) {
        white_space_parts_words(a.skip(1), white, b);
        assert(all[0] == a[0]);
        assert(all.skip(1) =~= a.skip(1) + seq![white] + b);
    } else {
        assert(all[0] == a[0]);
        run_ends_at_white(a, tail);
        run_len_bound(a);
        let n = run_len(a) as int;
        white_space_parts_words(a.skip(n), white, b);
        assert(all.take(n) =~= a.take(n));
        assert(all.skip(n) =~= a.skip(n) + seq![white] + b);
        assert(words(all) =~= words(a) + words(b));
        if forall|i: int| 0 <= i < a.len() ==> !is_white(#[trigger] a[i]) {
            word_is_one_run(a);
        }
    }
}

/// The pieces of a text hold no separator and, joined by it, are the text again.
pub proof fn pieces_are_parted_by_the_separator(s: Seq<char>, on: char)
    ensures
        joined(pieces(s, on), seq![on]) == s,
        forall|k: int|
            0 <= k < pieces(s, on).len() ==> !(#[trigger] pieces(s, on)[k]).contains(on),
        pieces(s, on).len() >= 1,
    decreases s.len(),
{
    let all = pieces(s, on);
    if s.len() == 0 {
        assert(joined(all, seq![on]) =~= s);
    } else {
        let init = s.drop_last();
        let before = pieces(init, on);
        pieces_are_parted_by_the_separator(init, on);
        assert(s =~= init.push(s.last()));
        if s.last() == on {
            assert(all.drop_last() =~= before);
            assert(joined(all, seq![on]) =~= s);
            assert forall|k: int| 0 <= k < all.len() implies !(#[trigger] all[k]).contains(on) by {
                if k < before.len() {
                    assert(all[k] == before[k]);
                }
            }
        } else {
            let lead = before.drop_last();
            let last = before.last();
            assert(all.drop_last() =~= lead);
            assert(all.last() == last.push(s.last()));
            assert(before =~= lead.push(last));
            if before.len() == 1 {
                assert(joined(all, seq![on]) =~= s);
            } else {
                assert(joined(all, seq![on]) =~= joined(lead, seq![on]) + seq![on] + last.push(
                    s.last(),
                ));
                assert(joined(all, seq![on]) =~= s);
            }
            assert forall|k: int| 0 <= k < all.len() implies !(#[trigger] all[k]).contains(on) by {
                if k < lead.len() {
                    assert(all[k] == before[k]);
                } else {
                    assert(!before[before.len() - 1].contains(on));
                    if all[k].contains(on) {
                        let m = choose|m: int| 0 <= m < all[k].len() && all[k][m] == on;
                        assert(last[m] == on);
                    }
                }
            }
        }
    }
}

/// Joining puts the separator between parts, and nothing before the first or behind the last.
pub proof fn joining_puts_the_separator_between(
    a: Seq<Seq<char>>,
    b: Seq<Seq<char>>,
    between: Seq<char>,
)
    requires
        a.len() > 0,
        b.len() > 0,
    ensures
        joined(a + b, between) == joined(a, between) + between + joined(b, between),
        a.len() == 1 ==> joined(a, between) == a[0],
    decreases b.len(),
{
    let all = a + b;
    if b.len() == 1 {
        assert(all.drop_last() =~= a);
        assert(all.last() == b[0]);
    } else {
        let init = b.drop_last();
        joining_puts_the_separator_between(a, init, between);
        assert(all.drop_last() =~= a + init);
        assert(all.last() == b.last());
        assert(joined(all, between) =~= joined(a, between) + between + joined(b, between));
    }
}

/// A number's digits spell it: another digit behind them stands for ten times the number and
/// that digit.
pub proof fn digits_spell_the_number(n: nat, digit: nat)
    requires
        digit < 10,
    ensures
        nat_text(digit).len() == 1,
        nat_text(digit)[0] as int == 48 + digit,
        n > 0 ==> nat_text(10 * n + digit) == nat_text(n) + nat_text(digit),
        n > 0 ==> integer_text(-(n as int)) == seq!['-'] + integer_text(n as int),
{
    if n > 0 {
        assert((10 * n + digit) / 10 == n);
        assert((10 * n + digit) % 10 == digit);
        assert(nat_text(10 * n + digit) =~= nat_text(n) + nat_text(digit));
    }
}

} // verus!
