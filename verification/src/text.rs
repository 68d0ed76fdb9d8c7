//! Text of `TEXT` and `MTEXT` entities, with formatting codes translated or removed.

use vstd::prelude::*;

verus! {

/// `String::push`. Trusted: appends one character.
pub assume_specification[ String::push ](s: &mut String, c: char)
    ensures
        final(s)@ == old(s)@.push(c),
;

/// Whether `pattern` stands in `s` at index `at`.
pub open spec fn stands_at(s: Seq<char>, pattern: Seq<char>, at: int) -> bool {
    0 <= at && at + pattern.len() <= s.len() && s.subrange(at, at + pattern.len()) == pattern
}

/// `s` with every occurrence of `pattern` replaced, going from the left and past each
/// occurrence that was replaced.
pub open spec fn replaced(s: Seq<char>, pattern: Seq<char>, with: Seq<char>) -> Seq<char>
    decreases s.len(),
{
    if s.len() == 0 || pattern.len() == 0 {
        s
    } else if stands_at(s, pattern, 0) {
        with + replaced(s.skip(pattern.len() as int), pattern, with)
    } else {
        seq![s[0]] + replaced(s.skip(1), pattern, with)
    }
}

/// The characters of a string.
fn chars_of(s: &str) -> (chars: Vec<char>)
    ensures
        chars@ == s@,
{
    let mut chars: Vec<char> = Vec::new();
    for c in it: s.chars()
        invariant
            chars@ == it.seq().take(it.index() as int),
    {
        chars.push(c);
        assert(it.seq().take(it.index() + 1) =~= it.seq().take(it.index() as int).push(c));
    }
    assert(chars@ =~= s@);
    chars
}

/// Whether `pattern` stands in `s` at index `at`.
fn matches_at(s: &Vec<char>, pattern: &Vec<char>, at: usize) -> (r: bool)
    requires
        at <= s@.len(),
    ensures
        r == stands_at(s@, pattern@, at as int),
{
    let total: usize = s.len();
    if total - at < pattern.len() {
        return false;
    }
    let ghost there = s@.subrange(at as int, at + pattern@.len());
    let mut i: usize = 0;
    while i < pattern.len()
        invariant
            i <= pattern@.len(),
            at + pattern@.len() <= total == s@.len(),
            there == s@.subrange(at as int, at + pattern@.len()),
            forall|j: int| 0 <= j < i ==> there[j] == pattern@[j],
        decreases pattern@.len() - i,
    {
        if s[at + i] != pattern[i] {
            assert(there[i as int] != pattern@[i as int]);
            return false;
        }
        i = i + 1;
    }
    assert(there =~= pattern@);
    true
}

/// Replace every occurrence of a pattern that is not empty.
pub fn replace_all(s: &str, pattern: &str, with: &str) -> (out: String)
    requires
        pattern@.len() > 0,
    ensures
        out@ == replaced(s@, pattern@, with@),
{
    let chars: Vec<char> = chars_of(s);
    let pattern_chars: Vec<char> = chars_of(pattern);
    let mut out: String = String::new();
    let mut i: usize = 0;
    assert(s@.skip(0) =~= s@);
    while i < chars.len()
        invariant
            chars@ == s@,
            pattern_chars@ == pattern@,
            pattern@.len() > 0,
            i <= s@.len(),
            replaced(s@, pattern@, with@) == out@ + replaced(s@.skip(i as int), pattern@, with@),
        decreases s@.len() - i,
    {
        let ghost rest = s@.skip(i as int);
        let ghost before = out@;
        let here: bool = matches_at(&chars, &pattern_chars, i);
        proof {
            assert(rest.subrange(0, pattern@.len() as int) =~= s@.subrange(
                i as int,
                i + pattern@.len(),
            ) || i + pattern@.len() > s@.len());
        }
        if here {
            out.append(with);
            i = i + pattern_chars.len();
            assert(rest.skip(pattern@.len() as int) =~= s@.skip(i as int));
            assert(before + (with@ + replaced(s@.skip(i as int), pattern@, with@)) =~= out@
                + replaced(s@.skip(i as int), pattern@, with@));
        } else {
            let c: char = chars[i];
            out.push(c);
            i = i + 1;
            assert(rest.skip(1) =~= s@.skip(i as int));
            assert(before + (seq![c] + replaced(s@.skip(i as int), pattern@, with@)) =~= out@
                + replaced(s@.skip(i as int), pattern@, with@));
        }
    }
    assert(out@ + replaced(s@.skip(i as int), pattern@, with@) =~= out@);
    out
}

/// A text with the percent codes for symbols translated, upper and lower case, and the
/// escaped percent sign last.
pub open spec fn symbols_translated(s: Seq<char>) -> Seq<char> {
    let s = replaced(s, "%%c"@, "\u{2205}"@);
    let s = replaced(s, "%%d"@, "\u{b0}"@);
    let s = replaced(s, "%%p"@, "\u{b1}"@);
    let s = replaced(s, "%%C"@, "\u{2205}"@);
    let s = replaced(s, "%%D"@, "\u{b0}"@);
    let s = replaced(s, "%%P"@, "\u{b1}"@);
    replaced(s, "%%%"@, "%"@)
}

/// What the value of a `TEXT` shows: symbols translated, then the toggles for
/// underline and overline removed.
pub open spec fn shown_text(s: Seq<char>) -> Seq<char> {
    let s = symbols_translated(s);
    let s = replaced(s, "%%u"@, ""@);
    replaced(s, "%%o"@, ""@)
}

/// What the contents of an `MTEXT` show: symbols translated, then the codes for
/// underline, overline and strikethrough removed, paragraph breaks turned into line
/// breaks, and the codes for vertical alignment removed.
pub open spec fn shown_mtext(s: Seq<char>) -> Seq<char> {
    let s = symbols_translated(s);
    let s = replaced(s, "\\L"@, ""@);
    let s = replaced(s, "\\l"@, ""@);
    let s = replaced(s, "\\O"@, ""@);
    let s = replaced(s, "\\o"@, ""@);
    let s = replaced(s, "\\S"@, ""@);
    let s = replaced(s, "\\s"@, ""@);
    let s = replaced(s, "\\P"@, "\n"@);
    let s = replaced(s, "\\A1;"@, ""@);
    replaced(s, "\\A0;"@, ""@)
}

fn translate_symbols(s: &str) -> (out: String)
    ensures
        out@ == symbols_translated(s@),
{
    proof {
        reveal_strlit("%%c");
        reveal_strlit("%%d");
        reveal_strlit("%%p");
        reveal_strlit("%%C");
        reveal_strlit("%%D");
        reveal_strlit("%%P");
        reveal_strlit("%%%");
    }
    let out: String = replace_all(s, "%%c", "\u{2205}");
    let out: String = replace_all(out.as_str(), "%%d", "\u{b0}");
    let out: String = replace_all(out.as_str(), "%%p", "\u{b1}");
    let out: String = replace_all(out.as_str(), "%%C", "\u{2205}");
    let out: String = replace_all(out.as_str(), "%%D", "\u{b0}");
    let out: String = replace_all(out.as_str(), "%%P", "\u{b1}");
    replace_all(out.as_str(), "%%%", "%")
}

/// Translate the value of a `TEXT` to what it shows.
pub fn translate_text(value: &str) -> (out: String)
    ensures
        out@ == shown_text(value@),
{
    proof {
        reveal_strlit("%%u");
        reveal_strlit("%%o");
    }
    let out: String = translate_symbols(value);
    let out: String = replace_all(out.as_str(), "%%u", "");
    replace_all(out.as_str(), "%%o", "")
}

/// The text of an `MTEXT` followed by its first `n` extensions.
pub open spec fn joined(text: Seq<char>, extended: Seq<String>, n: int) -> Seq<char>
    decreases n,
{
    if n <= 0 {
        text
    } else {
        joined(text, extended, n - 1) + extended[n - 1]@
    }
}

/// Translate the contents of an `MTEXT`, which go on in extensions, to what they show.
pub fn translate_mtext(text: &String, extended: &Vec<String>) -> (out: String)
    ensures
        out@ == shown_mtext(joined(text@, extended@, extended@.len() as int)),
{
    proof {
        reveal_strlit("\\L");
        reveal_strlit("\\l");
        reveal_strlit("\\O");
        reveal_strlit("\\o");
        reveal_strlit("\\S");
        reveal_strlit("\\s");
        reveal_strlit("\\P");
        reveal_strlit("\\A1;");
        reveal_strlit("\\A0;");
    }
    let mut all: String = text.clone();
    let mut i: usize = 0;
    while i < extended.len()
        invariant
            i <= extended@.len(),
            all@ == joined(text@, extended@, i as int),
        decreases extended@.len() - i,
    {
        all.append(extended[i].as_str());
        i = i + 1;
    }
    let out: String = translate_symbols(all.as_str());
    let out: String = replace_all(out.as_str(), "\\L", "");
    let out: String = replace_all(out.as_str(), "\\l", "");
    let out: String = replace_all(out.as_str(), "\\O", "");
    let out: String = replace_all(out.as_str(), "\\o", "");
    let out: String = replace_all(out.as_str(), "\\S", "");
    let out: String = replace_all(out.as_str(), "\\s", "");
    let out: String = replace_all(out.as_str(), "\\P", "\n");
    let out: String = replace_all(out.as_str(), "\\A1;", "");
    replace_all(out.as_str(), "\\A0;", "")
}

/// A text in which a pattern's first character does not occur is left as it is.
proof fn lemma_nothing_to_replace(s: Seq<char>, pattern: Seq<char>, with: Seq<char>)
    requires
        pattern.len() > 0,
        !s.contains(pattern[0]),
    ensures
        replaced(s, pattern, with) == s,
    decreases s.len(),
{
    if s.len() > 0 {
        let rest = s.skip(1);
        assert(s[0] != pattern[0]);
        assert forall|i: int| 0 <= i < rest.len() implies rest[i] != pattern[0] by {
            assert(rest[i] == s[i + 1]);
        }
        lemma_nothing_to_replace(rest, pattern, with);
        if stands_at(s, pattern, 0) {
            assert(s.subrange(0, pattern.len() as int)[0] == s[0]);
        }
        assert(seq![s[0]] + rest =~= s);
    }
}

/// A text without percent signs shows as it is written in a `TEXT`.
pub proof fn law_plain_text_is_kept(s: Seq<char>)
    requires
        !s.contains('%'),
    ensures
        symbols_translated(s) == s,
        shown_text(s) == s,
{
    reveal_strlit("%%c");
    reveal_strlit("%%d");
    reveal_strlit("%%p");
    reveal_strlit("%%C");
    reveal_strlit("%%D");
    reveal_strlit("%%P");
    reveal_strlit("%%%");
    reveal_strlit("%%u");
    reveal_strlit("%%o");
    lemma_nothing_to_replace(s, "%%c"@, "\u{2205}"@);
    lemma_nothing_to_replace(s, "%%d"@, "\u{b0}"@);
    lemma_nothing_to_replace(s, "%%p"@, "\u{b1}"@);
    lemma_nothing_to_replace(s, "%%C"@, "\u{2205}"@);
    lemma_nothing_to_replace(s, "%%D"@, "\u{b0}"@);
    lemma_nothing_to_replace(s, "%%P"@, "\u{b1}"@);
    lemma_nothing_to_replace(s, "%%%"@, "%"@);
    lemma_nothing_to_replace(s, "%%u"@, ""@);
    lemma_nothing_to_replace(s, "%%o"@, ""@);
}

/// A text without percent signs and backslashes shows as it is written in an `MTEXT`.
pub proof fn law_plain_mtext_is_kept(s: Seq<char>)
    requires
        !s.contains('%'),
        !s.contains('\\'),
    ensures
        shown_mtext(s) == s,
{
    law_plain_text_is_kept(s);
    reveal_strlit("\\L");
    reveal_strlit("\\l");
    reveal_strlit("\\O");
    reveal_strlit("\\o");
    reveal_strlit("\\S");
    reveal_strlit("\\s");
    reveal_strlit("\\P");
    reveal_strlit("\\A1;");
    reveal_strlit("\\A0;");
    lemma_nothing_to_replace(s, "\\L"@, ""@);
    lemma_nothing_to_replace(s, "\\l"@, ""@);
    lemma_nothing_to_replace(s, "\\O"@, ""@);
    lemma_nothing_to_replace(s, "\\o"@, ""@);
    lemma_nothing_to_replace(s, "\\S"@, ""@);
    lemma_nothing_to_replace(s, "\\s"@, ""@);
    lemma_nothing_to_replace(s, "\\P"@, "\n"@);
    lemma_nothing_to_replace(s, "\\A1;"@, ""@);
    lemma_nothing_to_replace(s, "\\A0;"@, ""@);
}

} // verus!
