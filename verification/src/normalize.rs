//! Display normalization of parsed address component values: split a value
//! into whitespace-separated tokens, uppercase the first character of each
//! token, leave every other character unchanged, and rejoin the tokens with
//! single spaces.

use vstd::prelude::*;
use vstd::string::StrSliceExecFns;

verus! {

/// Whitespace as the tokenizer sees it: the ASCII whitespace characters.
pub open spec fn is_space(c: char) -> bool {
    c == ' ' || c == '\t' || c == '\n' || c == '\r' || c == '\x0b' || c == '\x0c'
}

/// Uppercasing of a single character: an ASCII lowercase letter is mapped to
/// its uppercase counterpart, every other character is unchanged.
pub open spec fn upper_char(c: char) -> char {
    match c {
        'a' => 'A',
        'b' => 'B',
        'c' => 'C',
        'd' => 'D',
        'e' => 'E',
        'f' => 'F',
        'g' => 'G',
        'h' => 'H',
        'i' => 'I',
        'j' => 'J',
        'k' => 'K',
        'l' => 'L',
        'm' => 'M',
        'n' => 'N',
        'o' => 'O',
        'p' => 'P',
        'q' => 'Q',
        'r' => 'R',
        's' => 'S',
        't' => 'T',
        'u' => 'U',
        'v' => 'V',
        'w' => 'W',
        'x' => 'X',
        'y' => 'Y',
        'z' => 'Z',
        _ => c,
    }
}

/// The whitespace-separated tokens of a string, defined by what appending one
/// character does to them: a whitespace character changes nothing, a
/// non-whitespace character extends the last token when the string ended in
/// one, and otherwise starts a new token.
pub open spec fn tokens(s: Seq<char>) -> Seq<Seq<char>>
    decreases s.len(),
{
    if s.len() == 0 {
        Seq::empty()
    } else {
        let prefix = s.drop_last();
        let c = s.last();
        let ts = tokens(prefix);
        if is_space(c) {
            ts
        } else if prefix.len() > 0 && !is_space(prefix.last()) {
            ts.update(ts.len() - 1, ts.last().push(c))
        } else {
            ts.push(seq![c])
        }
    }
}

/// A token with its first character uppercased and the rest unchanged.
pub open spec fn cap_word(w: Seq<char>) -> Seq<char> {
    if w.len() == 0 {
        w
    } else {
        seq![upper_char(w[0])] + w.drop_first()
    }
}

/// Tokens rejoined with a single space between adjacent ones.
pub open spec fn join_words(ws: Seq<Seq<char>>) -> Seq<char>
    decreases ws.len(),
{
    if ws.len() == 0 {
        Seq::empty()
    } else if ws.len() == 1 {
        ws[0]
    } else {
        join_words(ws.drop_last()) + seq![' '] + ws.last()
    }
}

/// Every token of a sequence, capitalized.
pub open spec fn cap_words(ws: Seq<Seq<char>>) -> Seq<Seq<char>> {
    ws.map_values(|w: Seq<char>| cap_word(w))
}

/// The normalized form of a value: its tokens, each with the first character
/// uppercased, joined by single spaces.
pub open spec fn normalized(s: Seq<char>) -> Seq<char> {
    join_words(cap_words(tokens(s)))
}

/// A word with no whitespace character in it.
pub open spec fn space_free(w: Seq<char>) -> bool {
    forall|j: int| 0 <= j < w.len() ==> !is_space(#[trigger] w[j])
}

/// A well-formed token sequence: every token is nonempty and whitespace-free.
pub open spec fn wf_words(ws: Seq<Seq<char>>) -> bool {
    forall|i: int| 0 <= i < ws.len() ==> (#[trigger] ws[i]).len() > 0 && space_free(ws[i])
}

/// A string that ends in a non-whitespace character has at least one token.
proof fn lemma_tokens_end(s: Seq<char>)
    requires
        s.len() > 0,
        !is_space(s.last()),
    ensures
        tokens(s).len() > 0,
    decreases s.len(),
{
    let prefix = s.drop_last();
    if prefix.len() > 0 && !is_space(prefix.last()) {
        lemma_tokens_end(prefix);
    }
}

/// The tokens of any string form a well-formed token sequence.
proof fn lemma_tokens_wf(s: Seq<char>)
    ensures
        wf_words(tokens(s)),
    decreases s.len(),
{
    if s.len() == 0 {
    } else {
        let prefix = s.drop_last();
        let c = s.last();
        let ts = tokens(prefix);
        lemma_tokens_wf(prefix);
        if is_space(c) {
        } else if prefix.len() > 0 && !is_space(prefix.last()) {
            lemma_tokens_end(prefix);
            let w = ts.last().push(c);
            assert(space_free(w)) by {
                assert(forall|j: int|
                    0 <= j < w.len() - 1 ==> !is_space(#[trigger] w[j]) && w[j] == ts.last()[j]);
            }
            assert(wf_words(ts.update(ts.len() - 1, w)));
        } else {
            assert(space_free(seq![c]));
            assert(wf_words(ts.push(seq![c])));
        }
    }
}

/// Joining a nonempty well-formed token sequence yields a nonempty string.
proof fn lemma_join_words_nonempty(ws: Seq<Seq<char>>)
    requires
        ws.len() > 0,
        forall|i: int| 0 <= i < ws.len() ==> (#[trigger] ws[i]).len() > 0,
    ensures
        join_words(ws).len() > 0,
    decreases ws.len(),
{
    if ws.len() > 1 {
        lemma_join_words_nonempty(ws.drop_last());
    }
}

/// Extending the last token by one character appends that character to the
/// joined string.
proof fn lemma_join_words_push_last(ws: Seq<Seq<char>>, c: char)
    requires
        ws.len() > 0,
    ensures
        join_words(ws.update(ws.len() - 1, ws.last().push(c))) == join_words(ws).push(c),
    decreases ws.len(),
{
    let ws2 = ws.update(ws.len() - 1, ws.last().push(c));
    if ws.len() == 1 {
        assert(join_words(ws2) =~= join_words(ws).push(c));
    } else {
        assert(ws2.drop_last() =~= ws.drop_last());
        assert(join_words(ws2) =~= join_words(ws).push(c));
    }
}

/// Capitalizing commutes with extending a nonempty word by one character.
proof fn lemma_cap_word_push(w: Seq<char>, c: char)
    requires
        w.len() > 0,
    ensures
        cap_word(w.push(c)) == cap_word(w).push(c),
{
    assert(cap_word(w.push(c)) =~= cap_word(w).push(c));
}

/// How one more character changes the normalized form: whitespace changes
/// nothing, a character that continues a token is appended as it is, and a
/// character that opens a token is appended uppercased, after a separating
/// space when a token precedes it.
proof fn lemma_normalized_step(s: Seq<char>, c: char)
    ensures
        is_space(c) ==> normalized(s.push(c)) == normalized(s),
        !is_space(c) && s.len() > 0 && !is_space(s.last()) ==> normalized(s.push(c))
            == normalized(s).push(c),
        !is_space(c) && !(s.len() > 0 && !is_space(s.last())) && tokens(s).len() == 0
            ==> normalized(s.push(c)) == seq![upper_char(c)],
        !is_space(c) && !(s.len() > 0 && !is_space(s.last())) && tokens(s).len() > 0
            ==> normalized(s.push(c)) == normalized(s) + seq![' '] + seq![upper_char(c)],
{
    let s2 = s.push(c);
    assert(s2.drop_last() =~= s);
    assert(s2.last() == c);
    let ts = tokens(s);
    if is_space(c) {
        assert(tokens(s2) == ts);
    } else if s.len() > 0 && !is_space(s.last()) {
        lemma_tokens_end(s);
        lemma_tokens_wf(s);
        let w = ts.last().push(c);
        assert(tokens(s2) == ts.update(ts.len() - 1, w));
        lemma_cap_word_push(ts.last(), c);
        assert(cap_words(tokens(s2)) =~= cap_words(ts).update(
            cap_words(ts).len() - 1,
            cap_words(ts).last().push(c),
        ));
        lemma_join_words_push_last(cap_words(ts), c);
    } else {
        assert(tokens(s2) == ts.push(seq![c]));
        assert(cap_word(seq![c]) =~= seq![upper_char(c)]);
        assert(cap_words(tokens(s2)) =~= cap_words(ts).push(seq![upper_char(c)]));
        let m2 = cap_words(tokens(s2));
        if ts.len() == 0 {
            assert(join_words(m2) == m2[0]);
        } else {
            assert(m2.drop_last() =~= cap_words(ts));
            assert(join_words(m2) == join_words(cap_words(ts)) + seq![' '] + seq![upper_char(c)]);
        }
    }
}

/// A normalized form is empty exactly when the input has no token.
proof fn lemma_normalized_empty(s: Seq<char>)
    ensures
        normalized(s).len() == 0 <==> tokens(s).len() == 0,
{
    lemma_tokens_wf(s);
    if tokens(s).len() > 0 {
        assert(forall|i: int|
            0 <= i < cap_words(tokens(s)).len() ==> (#[trigger] cap_words(tokens(s))[i]).len()
                > 0);
        lemma_join_words_nonempty(cap_words(tokens(s)));
    }
}

/// Uppercases one character, exactly as `upper_char` describes.
fn upper_first(c: char) -> (r: char)
    ensures
        r == upper_char(c),
{
    match c {
        'a' => 'A',
        'b' => 'B',
        'c' => 'C',
        'd' => 'D',
        'e' => 'E',
        'f' => 'F',
        'g' => 'G',
        'h' => 'H',
        'i' => 'I',
        'j' => 'J',
        'k' => 'K',
        'l' => 'L',
        'm' => 'M',
        'n' => 'N',
        'o' => 'O',
        'p' => 'P',
        'q' => 'Q',
        'r' => 'R',
        's' => 'S',
        't' => 'T',
        'u' => 'U',
        'v' => 'V',
        'w' => 'W',
        'x' => 'X',
        'y' => 'Y',
        'z' => 'Z',
        _ => c,
    }
}

/// Decides whitespace, exactly as `is_space` describes.
fn space_check(c: char) -> (r: bool)
    ensures
        r == is_space(c),
{
    c == ' ' || c == '\t' || c == '\n' || c == '\r' || c == '\x0b' || c == '\x0c'
}

/// Uppercasing maps no character to whitespace and is idempotent.
proof fn lemma_upper_char_props(c: char)
    ensures
        !is_space(c) ==> !is_space(upper_char(c)),
        upper_char(upper_char(c)) == upper_char(c),
{
}

/// Capitalizing keeps a token nonempty and whitespace-free, keeps its
/// length, changes at most its first character, and is idempotent.
proof fn lemma_cap_word_props(w: Seq<char>)
    requires
        w.len() > 0,
        space_free(w),
    ensures
        cap_word(w).len() == w.len(),
        space_free(cap_word(w)),
        cap_word(w)[0] == upper_char(w[0]),
        cap_word(w).drop_first() == w.drop_first(),
        cap_word(cap_word(w)) == cap_word(w),
{
    lemma_upper_char_props(w[0]);
    assert(cap_word(w).drop_first() =~= w.drop_first());
    assert forall|j: int| 0 <= j < cap_word(w).len() implies !is_space(#[trigger] cap_word(w)[j]) by {
        if j > 0 {
            assert(cap_word(w)[j] == w[j]);
        }
    }
    lemma_upper_char_props(upper_char(w[0]));
    assert(cap_word(cap_word(w)) =~= cap_word(w));
}

/// Capitalizing every token of a well-formed token sequence yields a
/// well-formed token sequence.
proof fn lemma_cap_words_wf(ws: Seq<Seq<char>>)
    requires
        wf_words(ws),
    ensures
        wf_words(cap_words(ws)),
{
    assert forall|i: int|
        0 <= i < cap_words(ws).len() implies (#[trigger] cap_words(ws)[i]).len() > 0
        && space_free(cap_words(ws)[i]) by {
        lemma_cap_word_props(ws[i]);
    }
}

/// Appending a nonempty whitespace-free word to a string that is empty or
/// ends in whitespace adds exactly that word as one further token.
proof fn lemma_tokens_append_word(s: Seq<char>, w: Seq<char>)
    requires
        s.len() == 0 || is_space(s.last()),
        w.len() > 0,
        space_free(w),
    ensures
        tokens(s + w) == tokens(s).push(w),
    decreases w.len(),
{
    if w.len() == 1 {
        assert(s + w =~= s.push(w[0]));
        assert(s.push(w[0]).drop_last() =~= s);
        assert(tokens(s.push(w[0])) == tokens(s).push(seq![w[0]]));
        assert(seq![w[0]] =~= w);
    } else {
        let w0 = w.drop_last();
        assert(space_free(w0)) by {
            assert(forall|j: int| 0 <= j < w0.len() ==> #[trigger] w0[j] == w[j]);
        }
        lemma_tokens_append_word(s, w0);
        let p = s + w0;
        assert(s + w =~= p.push(w.last()));
        assert(p.len() > 0 && p.last() == w0.last() && !is_space(p.last()));
        assert(p.push(w.last()).drop_last() =~= p);
        let ts = tokens(p);
        assert(ts == tokens(s).push(w0));
        assert(ts.len() > 0 && ts.last() == w0);
        assert(tokens(p.push(w.last())) == ts.update(ts.len() - 1, w0.push(w.last())));
        assert(w0.push(w.last()) =~= w);
        assert(ts.update(ts.len() - 1, w) =~= tokens(s).push(w));
    }
}

/// Tokenizing undoes joining: the tokens of a joined well-formed token
/// sequence are that sequence itself.
proof fn lemma_tokens_join(ws: Seq<Seq<char>>)
    requires
        wf_words(ws),
    ensures
        tokens(join_words(ws)) == ws,
    decreases ws.len(),
{
    if ws.len() == 0 {
    } else if ws.len() == 1 {
        assert(Seq::<char>::empty() + ws[0] =~= ws[0]);
        lemma_tokens_append_word(Seq::<char>::empty(), ws[0]);
        assert(tokens(Seq::<char>::empty()).push(ws[0]) =~= ws);
    } else {
        let front = ws.drop_last();
        assert(wf_words(front)) by {
            assert(forall|i: int| 0 <= i < front.len() ==> #[trigger] front[i] == ws[i]);
        }
        lemma_tokens_join(front);
        let j = join_words(front);
        let js = j.push(' ');
        assert(j + seq![' '] =~= js);
        assert(js.drop_last() =~= j);
        assert(tokens(js) == tokens(j));
        lemma_tokens_append_word(js, ws.last());
        assert(join_words(ws) =~= js + ws.last());
        assert(front.push(ws.last()) =~= ws);
    }
}

/// Normalization preserves the token structure: the normalized string has
/// exactly one token per token of the input, and each is the corresponding
/// input token with only its first character uppercased.
pub proof fn lemma_normalize_token_structure(s: Seq<char>)
    ensures
        tokens(normalized(s)) == cap_words(tokens(s)),
        tokens(normalized(s)).len() == tokens(s).len(),
        forall|i: int|
            0 <= i < tokens(s).len() ==> #[trigger] tokens(normalized(s))[i] == cap_word(
                tokens(s)[i],
            ),
        forall|i: int|
            0 <= i < tokens(s).len() ==> (#[trigger] tokens(normalized(s))[i]).len()
                == tokens(s)[i].len(),
        forall|i: int|
            0 <= i < tokens(s).len() ==> (#[trigger] tokens(normalized(s))[i]).drop_first()
                == tokens(s)[i].drop_first(),
        forall|i: int|
            0 <= i < tokens(s).len() ==> (#[trigger] tokens(normalized(s))[i])[0] == upper_char(
                tokens(s)[i][0],
            ),
{
    lemma_tokens_wf(s);
    lemma_cap_words_wf(tokens(s));
    lemma_tokens_join(cap_words(tokens(s)));
    assert forall|i: int| 0 <= i < tokens(s).len() implies (#[trigger] tokens(normalized(s))[i])
        == cap_word(tokens(s)[i]) && tokens(normalized(s))[i].len() == tokens(s)[i].len()
        && tokens(normalized(s))[i].drop_first() == tokens(s)[i].drop_first() && tokens(
        normalized(s),
    )[i][0] == upper_char(tokens(s)[i][0]) by {
        lemma_cap_word_props(tokens(s)[i]);
    }
}

/// Normalization is idempotent: normalizing a normalized string changes
/// nothing.
pub proof fn lemma_normalize_idempotent(s: Seq<char>)
    ensures
        normalized(normalized(s)) == normalized(s),
{
    lemma_tokens_wf(s);
    lemma_cap_words_wf(tokens(s));
    lemma_tokens_join(cap_words(tokens(s)));
    assert(cap_words(cap_words(tokens(s))) =~= cap_words(tokens(s))) by {
        assert forall|i: int|
            0 <= i < cap_words(cap_words(tokens(s))).len() implies #[trigger] cap_words(
            cap_words(tokens(s)),
        )[i] == cap_words(tokens(s))[i] by {
            lemma_cap_word_props(tokens(s)[i]);
        }
    }
}

/// Relies on String::push: appends the given character to the end of the
/// string.
#[verifier::external_body]
fn push_char(s: &mut String, c: char)
    ensures
        final(s)@ == old(s)@.push(c),
{
    s.push(c);
}

/// Normalizes one component value for display: tokens are the maximal
/// whitespace-free runs of the input, each gets its first character
/// uppercased, and they are rejoined with single spaces. Empty input, or
/// input of nothing but whitespace, yields the empty string.
pub fn capitalize_words(input: String) -> (r: String)
    ensures
        r@ == normalized(input@),
        input@.len() == 0 ==> r@.len() == 0,
{
    let s = input.as_str();
    let n = s.unicode_len();
    let mut out = String::new();
    let mut i: usize = 0;
    let mut prev_nonspace = false;
    proof {
        assert(input@.take(0) =~= Seq::<char>::empty());
    }
    while i < n
        invariant
            s@ == input@,
            n == input@.len(),
            i <= n,
            out@ == normalized(input@.take(i as int)),
            prev_nonspace == (i > 0 && !is_space(input@[i as int - 1])),
        decreases n - i,
    {
        let c = s.get_char(i);
        let ghost prefix = input@.take(i as int);
        proof {
            assert(input@.take(i as int + 1) =~= prefix.push(c));
            lemma_normalized_step(prefix, c);
            lemma_normalized_empty(prefix);
            if i > 0 {
                assert(prefix.last() == input@[i as int - 1]);
            }
        }
        let sp = space_check(c);
        if sp {
            // a whitespace character leaves the tokens as they are
        } else if prev_nonspace {
            push_char(&mut out, c);
        } else {
            if !out.as_str().is_empty() {
                push_char(&mut out, ' ');
            }
            push_char(&mut out, upper_first(c));
            proof {
                if tokens(prefix).len() > 0 {
                    assert(out@ =~= normalized(prefix) + seq![' '] + seq![upper_char(c)]);
                } else {
                    assert(out@ =~= seq![upper_char(c)]);
                }
            }
        }
        i = i + 1;
        prev_nonspace = !sp;
    }
    proof {
        assert(input@.take(n as int) =~= input@);
    }
    out
}

} // verus!
