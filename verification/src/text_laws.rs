//! What texts show, code by code.

use vstd::prelude::*;

#[allow(unused_imports)]
use crate::text::{
    joined, law_plain_mtext_is_kept, law_plain_text_is_kept, replaced, shown_mtext, shown_text,
    stands_at, symbols_translated,
};

verus! {

/// A percent code: two percent signs and a character.
pub open spec fn percent_code(c: char) -> Seq<char> {
    seq!['%', '%', c]
}

/// The character that a percent code stands for, if it stands for one.
pub open spec fn symbol_for(c: char) -> Option<char> {
    if c == 'c' || c == 'C' {
        Some('\u{2205}')
    } else if c == 'd' || c == 'D' {
        Some('\u{b0}')
    } else if c == 'p' || c == 'P' {
        Some('\u{b1}')
    } else {
        None
    }
}

/// Whether a pattern occurs in a text.
pub open spec fn occurs(s: Seq<char>, pattern: Seq<char>) -> bool {
    exists|t: int| #[trigger] stands_at(s, pattern, t)
}

/// A pattern that stands somewhere has its characters there.
proof fn lemma_stands(s: Seq<char>, pattern: Seq<char>, t: int, i: int)
    requires
        stands_at(s, pattern, t),
        0 <= i < pattern.len(),
    ensures
        s[t + i] == pattern[i],
{
    assert(s.subrange(t, t + pattern.len())[i] == s[t + i]);
}

/// Replacing goes past a prefix in which no occurrence starts.
proof fn lemma_goes_past(prefix: Seq<char>, b: Seq<char>, p: Seq<char>, w: Seq<char>)
    requires
        p.len() > 0,
        forall|t: int| 0 <= t < prefix.len() ==> !#[trigger] stands_at(prefix + b, p, t),
    ensures
        replaced(prefix + b, p, w) == prefix + replaced(b, p, w),
    decreases prefix.len(),
{
    if prefix.len() == 0 {
        assert(prefix + b =~= b);
        assert(prefix + replaced(b, p, w) =~= replaced(b, p, w));
    } else {
        let all = prefix + b;
        let rest = prefix.skip(1);
        assert(all.skip(1) =~= rest + b);
        assert forall|t: int| 0 <= t < rest.len() implies !#[trigger] stands_at(rest + b, p, t) by {
            if stands_at(rest + b, p, t) {
                assert(all.subrange(t + 1, t + 1 + p.len()) =~= (rest + b).subrange(
                    t,
                    t + p.len(),
                ));
                assert(stands_at(all, p, t + 1));
            }
        }
        lemma_goes_past(rest, b, p, w);
        assert(!stands_at(all, p, 0));
        assert(seq![all[0]] + (rest + replaced(b, p, w)) =~= prefix + replaced(b, p, w));
    }
}

/// Whether a code and a pattern that would start at index `t` of it differ within the
/// code.
spec fn clashes(code: Seq<char>, p: Seq<char>, t: int) -> bool {
    exists|i: int|
        0 <= i < p.len() && 0 <= t + i < code.len() && #[trigger] p[i] != code[t + i]
}

/// One replacement on a text with a code in it, whether that was replaced before or not.
spec fn held(a: Seq<char>, code: Seq<char>, sym: Seq<char>, b: Seq<char>, done: bool) -> Seq<
    char,
> {
    if done {
        a + sym + b
    } else {
        a + code + b
    }
}

proof fn lemma_stage(
    a: Seq<char>,
    code: Seq<char>,
    sym: Seq<char>,
    b: Seq<char>,
    p: Seq<char>,
    w: Seq<char>,
    done: bool,
)
    requires
        p.len() > 0,
        !a.contains(p[0]),
        !sym.contains(p[0]),
        p == code ==> w == sym,
        !done && p != code ==> forall|t: int| 0 <= t < code.len() ==> #[trigger] clashes(code, p, t),
    ensures
        replaced(held(a, code, sym, b, done), p, w) == held(
            a,
            code,
            sym,
            replaced(b, p, w),
            done || p == code,
        ),
{
    if done {
        let prefix = a + sym;
        assert forall|t: int| 0 <= t < prefix.len() implies !#[trigger] stands_at(
            prefix + b,
            p,
            t,
        ) by {
            if stands_at(prefix + b, p, t) {
                lemma_stands(prefix + b, p, t, 0);
                if t < a.len() {
                    assert(a[t] == p[0]);
                } else {
                    assert(sym[t - a.len()] == p[0]);
                }
            }
        }
        lemma_goes_past(prefix, b, p, w);
    } else if p == code {
        let tail = code + b;
        assert(a + code + b =~= a + tail);
        assert forall|t: int| 0 <= t < a.len() implies !#[trigger] stands_at(a + tail, p, t) by {
            if stands_at(a + tail, p, t) {
                lemma_stands(a + tail, p, t, 0);
                assert(a[t] == p[0]);
            }
        }
        lemma_goes_past(a, tail, p, w);
        assert(tail.subrange(0, p.len() as int) =~= p);
        assert(stands_at(tail, p, 0));
        assert(tail.skip(p.len() as int) =~= b);
        assert(a + (sym + replaced(b, p, w)) =~= a + sym + replaced(b, p, w));
    } else {
        let prefix = a + code;
        assert forall|t: int| 0 <= t < prefix.len() implies !#[trigger] stands_at(
            prefix + b,
            p,
            t,
        ) by {
            if stands_at(prefix + b, p, t) {
                if t < a.len() {
                    lemma_stands(prefix + b, p, t, 0);
                    assert(a[t] == p[0]);
                } else {
                    assert(clashes(code, p, t - a.len()));
                    let i = choose|i: int|
                        0 <= i < p.len() && 0 <= t - a.len() + i < code.len() && #[trigger] p[i]
                            != code[t - a.len() + i];
                    lemma_stands(prefix + b, p, t, i);
                }
            }
        }
        lemma_goes_past(prefix, b, p, w);
    }
}

/// A stage of replacing one percent code, on a text with another.
proof fn lemma_percent_stage(
    a: Seq<char>,
    x: char,
    sym: Seq<char>,
    b: Seq<char>,
    y: char,
    w: Seq<char>,
    done: bool,
)
    requires
        !a.contains('%'),
        !sym.contains('%'),
        x != '%',
        x == y ==> w == sym,
    ensures
        replaced(held(a, percent_code(x), sym, b, done), percent_code(y), w) == held(
            a,
            percent_code(x),
            sym,
            replaced(b, percent_code(y), w),
            done || x == y,
        ),
{
    let code = percent_code(x);
    let p = percent_code(y);
    assert(p[2] == y && code[2] == x);
    if x != y {
        assert forall|t: int| 0 <= t < code.len() implies #[trigger] clashes(code, p, t) by {
            if t == 0 {
                assert(p[2] != code[2]);
            } else if t == 1 {
                assert(p[1] != code[2]);
            } else {
                assert(p[0] != code[2]);
            }
        }
    }
    lemma_stage(a, code, sym, b, p, w, done);
}

/// A stage of replacing a pattern that has nothing to do with a code: it starts with a
/// character that the code does not have.
proof fn lemma_other_stage(
    a: Seq<char>,
    code: Seq<char>,
    sym: Seq<char>,
    b: Seq<char>,
    p: Seq<char>,
    w: Seq<char>,
    done: bool,
)
    requires
        p.len() > 0,
        !a.contains(p[0]),
        !sym.contains(p[0]),
        !code.contains(p[0]),
    ensures
        replaced(held(a, code, sym, b, done), p, w) == held(a, code, sym, replaced(b, p, w), done),
{
    assert(p != code) by {
        if p == code {
            assert(code[0] == p[0]);
        }
    }
    assert forall|t: int| 0 <= t < code.len() implies #[trigger] clashes(code, p, t) by {
        assert(p[0] != code[t + 0]);
    }
    lemma_stage(a, code, sym, b, p, w, done);
}

/// The literals of the percent codes.
proof fn lemma_percent_literals()
    ensures
        "%%c"@ == percent_code('c'),
        "%%d"@ == percent_code('d'),
        "%%p"@ == percent_code('p'),
        "%%C"@ == percent_code('C'),
        "%%D"@ == percent_code('D'),
        "%%P"@ == percent_code('P'),
        "%%%"@ == percent_code('%'),
        "%%u"@ == percent_code('u'),
        "%%o"@ == percent_code('o'),
        "\u{2205}"@ == seq!['\u{2205}'],
        "\u{b0}"@ == seq!['\u{b0}'],
        "\u{b1}"@ == seq!['\u{b1}'],
        "%"@ == seq!['%'],
        ""@ == Seq::<char>::empty(),
        "\n"@ == seq!['\n'],
{
    reveal_strlit("%%c");
    reveal_strlit("%%d");
    reveal_strlit("%%p");
    reveal_strlit("%%C");
    reveal_strlit("%%D");
    reveal_strlit("%%P");
    reveal_strlit("%%%");
    reveal_strlit("%%u");
    reveal_strlit("%%o");
    reveal_strlit("\u{2205}");
    reveal_strlit("\u{b0}");
    reveal_strlit("\u{b1}");
    reveal_strlit("%");
    reveal_strlit("");
    reveal_strlit("\n");
    assert("%%c"@ =~= percent_code('c'));
    assert("%%d"@ =~= percent_code('d'));
    assert("%%p"@ =~= percent_code('p'));
    assert("%%C"@ =~= percent_code('C'));
    assert("%%D"@ =~= percent_code('D'));
    assert("%%P"@ =~= percent_code('P'));
    assert("%%%"@ =~= percent_code('%'));
    assert("%%u"@ =~= percent_code('u'));
    assert("%%o"@ =~= percent_code('o'));
    assert("\u{2205}"@ =~= seq!['\u{2205}']);
    assert("\u{b0}"@ =~= seq!['\u{b0}']);
    assert("\u{b1}"@ =~= seq!['\u{b1}']);
    assert("%"@ =~= seq!['%']);
    assert(""@ =~= Seq::<char>::empty());
    assert("\n"@ =~= seq!['\n']);
}

/// The literals of the backslash codes.
proof fn lemma_backslash_literals()
    ensures
        "\\L"@ == seq!['\\', 'L'],
        "\\l"@ == seq!['\\', 'l'],
        "\\O"@ == seq!['\\', 'O'],
        "\\o"@ == seq!['\\', 'o'],
        "\\S"@ == seq!['\\', 'S'],
        "\\s"@ == seq!['\\', 's'],
        "\\P"@ == seq!['\\', 'P'],
        "\\A1;"@ == seq!['\\', 'A', '1', ';'],
        "\\A0;"@ == seq!['\\', 'A', '0', ';'],
{
    reveal_strlit("\\L");
    reveal_strlit("\\l");
    reveal_strlit("\\O");
    reveal_strlit("\\o");
    reveal_strlit("\\S");
    reveal_strlit("\\s");
    reveal_strlit("\\P");
    reveal_strlit("\\A1;");
    reveal_strlit("\\A0;");
    assert("\\L"@ =~= seq!['\\', 'L']);
    assert("\\l"@ =~= seq!['\\', 'l']);
    assert("\\O"@ =~= seq!['\\', 'O']);
    assert("\\o"@ =~= seq!['\\', 'o']);
    assert("\\S"@ =~= seq!['\\', 'S']);
    assert("\\s"@ =~= seq!['\\', 's']);
    assert("\\P"@ =~= seq!['\\', 'P']);
    assert("\\A1;"@ =~= seq!['\\', 'A', '1', ';']);
    assert("\\A0;"@ =~= seq!['\\', 'A', '0', ';']);
}

/// The symbol stages on a text with a percent code other than the escaped sign.
proof fn lemma_symbols_with_code(a: Seq<char>, x: char, sym: Seq<char>, b: Seq<char>)
    requires
        !a.contains('%'),
        !sym.contains('%'),
        x != '%',
        symbol_for(x) matches Some(s) ==> sym == seq![s],
    ensures
        symbols_translated(a + percent_code(x) + b) == held(
            a,
            percent_code(x),
            sym,
            symbols_translated(b),
            symbol_for(x) is Some,
        ),
{
    lemma_percent_literals();
    let d0 = false;
    let b1 = replaced(b, percent_code('c'), "\u{2205}"@);
    lemma_percent_stage(a, x, sym, b, 'c', "\u{2205}"@, d0);
    let d1 = d0 || x == 'c';
    let b2 = replaced(b1, percent_code('d'), "\u{b0}"@);
    lemma_percent_stage(a, x, sym, b1, 'd', "\u{b0}"@, d1);
    let d2 = d1 || x == 'd';
    let b3 = replaced(b2, percent_code('p'), "\u{b1}"@);
    lemma_percent_stage(a, x, sym, b2, 'p', "\u{b1}"@, d2);
    let d3 = d2 || x == 'p';
    let b4 = replaced(b3, percent_code('C'), "\u{2205}"@);
    lemma_percent_stage(a, x, sym, b3, 'C', "\u{2205}"@, d3);
    let d4 = d3 || x == 'C';
    let b5 = replaced(b4, percent_code('D'), "\u{b0}"@);
    lemma_percent_stage(a, x, sym, b4, 'D', "\u{b0}"@, d4);
    let d5 = d4 || x == 'D';
    let b6 = replaced(b5, percent_code('P'), "\u{b1}"@);
    lemma_percent_stage(a, x, sym, b5, 'P', "\u{b1}"@, d5);
    let d6 = d5 || x == 'P';
    lemma_percent_stage(a, x, sym, b6, '%', "%"@, d6);
}

/// A percent code for a symbol shows as the symbol in a `TEXT`, whatever follows it.
///
/// With [`law_plain_text_is_kept`] this says what a text shows that is made of such
/// codes and of pieces without percent signs.
pub proof fn law_symbol_codes_show_in_text(a: Seq<char>, x: char, b: Seq<char>)
    requires
        !a.contains('%'),
        symbol_for(x) is Some,
    ensures
        shown_text(a + seq!['%', '%', x] + b) == a + seq![symbol_for(x)->0] + shown_text(b),
{
    let sym = seq![symbol_for(x)->0];
    lemma_percent_literals();
    lemma_symbols_with_code(a, x, sym, b);
    let b1 = symbols_translated(b);
    lemma_percent_stage(a, x, sym, b1, 'u', ""@, true);
    lemma_percent_stage(a, x, sym, replaced(b1, percent_code('u'), ""@), 'o', ""@, true);
}

/// The toggles for underline and overline show as nothing in a `TEXT`.
pub proof fn law_toggles_do_not_show_in_text(a: Seq<char>, x: char, b: Seq<char>)
    requires
        !a.contains('%'),
        x == 'u' || x == 'o',
    ensures
        shown_text(a + seq!['%', '%', x] + b) == a + shown_text(b),
{
    let sym = Seq::<char>::empty();
    lemma_percent_literals();
    lemma_symbols_with_code(a, x, sym, b);
    let b1 = symbols_translated(b);
    lemma_percent_stage(a, x, sym, b1, 'u', ""@, false);
    lemma_percent_stage(a, x, sym, replaced(b1, percent_code('u'), ""@), 'o', ""@, x == 'u');
    assert(a + sym + shown_text(b) =~= a + shown_text(b));
}

/// The backslash stages on a text with something in it that has no backslash.
proof fn lemma_formats_keep(a: Seq<char>, b: Seq<char>)
    requires
        !a.contains('\\'),
    ensures
        formats_removed(a + b) == a + formats_removed(b),
{
    lemma_backslash_literals();
    let none = Seq::<char>::empty();
    assert(a + none + b =~= a + b);
    let b1 = replaced(b, "\\L"@, ""@);
    lemma_other_stage(a, none, none, b, "\\L"@, ""@, true);
    let b2 = replaced(b1, "\\l"@, ""@);
    lemma_other_stage(a, none, none, b1, "\\l"@, ""@, true);
    let b3 = replaced(b2, "\\O"@, ""@);
    lemma_other_stage(a, none, none, b2, "\\O"@, ""@, true);
    let b4 = replaced(b3, "\\o"@, ""@);
    lemma_other_stage(a, none, none, b3, "\\o"@, ""@, true);
    let b5 = replaced(b4, "\\S"@, ""@);
    lemma_other_stage(a, none, none, b4, "\\S"@, ""@, true);
    let b6 = replaced(b5, "\\s"@, ""@);
    lemma_other_stage(a, none, none, b5, "\\s"@, ""@, true);
    let b7 = replaced(b6, "\\P"@, "\n"@);
    lemma_other_stage(a, none, none, b6, "\\P"@, "\n"@, true);
    let b8 = replaced(b7, "\\A1;"@, ""@);
    lemma_other_stage(a, none, none, b7, "\\A1;"@, ""@, true);
    let b9 = replaced(b8, "\\A0;"@, ""@);
    lemma_other_stage(a, none, none, b8, "\\A0;"@, ""@, true);
    assert(a + none + b9 =~= a + b9);
}

/// The backslash stages.
spec fn formats_removed(s: Seq<char>) -> Seq<char> {
    let s = replaced(s, "\\L"@, ""@);
    let s = replaced(s, "\\l"@, ""@);
    let s = replaced(s, "\\O"@, ""@);
    let s = replaced(s, "\\o"@, ""@);
    let s = replaced(s, "\\S"@, ""@);
    let s = replaced(s, "\\s"@, ""@);
    let s = replaced(s, "\\P"@, "\n"@);
    let s = replaced(s, "\\A1;"@, ""@);
    replaced(s, "\\A0;"@, ""@)
}

/// A percent code for a symbol shows as the symbol in an `MTEXT`, whatever follows it.
///
/// With [`law_plain_mtext_is_kept`] this says what a text shows that is made of such
/// codes and of pieces without percent signs and backslashes.
pub proof fn law_symbol_codes_show_in_mtext(a: Seq<char>, x: char, b: Seq<char>)
    requires
        !a.contains('%'),
        !a.contains('\\'),
        symbol_for(x) is Some,
    ensures
        shown_mtext(a + seq!['%', '%', x] + b) == a + seq![symbol_for(x)->0] + shown_mtext(b),
{
    let sym = seq![symbol_for(x)->0];
    lemma_symbols_with_code(a, x, sym, b);
    let prefix = a + sym;
    assert forall|i: int| 0 <= i < prefix.len() implies prefix[i] != '\\' by {
        if i < a.len() {
            assert(a.contains(a[i]));
        }
    }
    lemma_formats_keep(prefix, symbols_translated(b));
}

/// The escaped percent sign, with the code in front of a text that cannot be taken for
/// the rest of a code.
proof fn lemma_symbols_with_escape(a: Seq<char>, b: Seq<char>)
    requires
        !a.contains('%'),
        b.len() == 0 || (b[0] != '%' && symbol_for(b[0]) is None),
    ensures
        symbols_translated(a + percent_code('%') + b) == a + seq!['%'] + symbols_translated(b),
        symbols_translated(b).len() == 0 <==> b.len() == 0,
        b.len() > 0 ==> symbols_translated(b)[0] == b[0],
{
    lemma_percent_literals();
    let p0 = a + percent_code('%');
    let b1 = replaced(b, percent_code('c'), "\u{2205}"@);
    lemma_escape_waits(a, b, 'c', "\u{2205}"@);
    let b2 = replaced(b1, percent_code('d'), "\u{b0}"@);
    lemma_escape_waits(a, b1, 'd', "\u{b0}"@);
    let b3 = replaced(b2, percent_code('p'), "\u{b1}"@);
    lemma_escape_waits(a, b2, 'p', "\u{b1}"@);
    let b4 = replaced(b3, percent_code('C'), "\u{2205}"@);
    lemma_escape_waits(a, b3, 'C', "\u{2205}"@);
    let b5 = replaced(b4, percent_code('D'), "\u{b0}"@);
    lemma_escape_waits(a, b4, 'D', "\u{b0}"@);
    let b6 = replaced(b5, percent_code('P'), "\u{b1}"@);
    lemma_escape_waits(a, b5, 'P', "\u{b1}"@);
    let p = percent_code('%');
    let tail = p + b6;
    assert(p0 + b6 =~= a + tail);
    assert forall|t: int| 0 <= t < a.len() implies !#[trigger] stands_at(a + tail, p, t) by {
        if stands_at(a + tail, p, t) {
            lemma_stands(a + tail, p, t, 0);
            assert(a[t] == p[0]);
        }
    }
    lemma_goes_past(a, tail, p, "%"@);
    assert(tail.subrange(0, 3) =~= p);
    assert(stands_at(tail, p, 0));
    assert(tail.skip(3) =~= b6);
    assert(a + (seq!['%'] + replaced(b6, p, "%"@)) =~= a + seq!['%'] + replaced(b6, p, "%"@));
    lemma_keeps_first(b6, p, "%"@);
}

/// Replacing keeps a first character that the pattern does not start with.
proof fn lemma_keeps_first(b: Seq<char>, p: Seq<char>, w: Seq<char>)
    requires
        p.len() > 0,
        b.len() > 0 ==> b[0] != p[0],
    ensures
        b.len() == 0 ==> replaced(b, p, w).len() == 0,
        b.len() > 0 ==> replaced(b, p, w).len() > 0 && replaced(b, p, w)[0] == b[0],
{
    if b.len() > 0 && stands_at(b, p, 0) {
        lemma_stands(b, p, 0, 0);
    }
}

/// The escaped percent sign is no other code.
proof fn lemma_escape_waits(a: Seq<char>, b: Seq<char>, y: char, w: Seq<char>)
    requires
        !a.contains('%'),
        y != '%',
        b.len() == 0 || (b[0] != '%' && b[0] != y),
    ensures
        replaced(a + percent_code('%') + b, percent_code(y), w) == a + percent_code('%')
            + replaced(b, percent_code(y), w),
        b.len() == 0 ==> replaced(b, percent_code(y), w).len() == 0,
        b.len() > 0 ==> replaced(b, percent_code(y), w).len() > 0 && replaced(
            b,
            percent_code(y),
            w,
        )[0] == b[0],
{
    let prefix = a + percent_code('%');
    let p = percent_code(y);
    assert forall|t: int| 0 <= t < prefix.len() implies !#[trigger] stands_at(
        prefix + b,
        p,
        t,
    ) by {
        if stands_at(prefix + b, p, t) {
            lemma_stands(prefix + b, p, t, 0);
            lemma_stands(prefix + b, p, t, 1);
            lemma_stands(prefix + b, p, t, 2);
            let n = a.len() as int;
            if t < n {
                assert(a[t] == p[0]);
            } else if t == n {
                assert((prefix + b)[n + 2] == '%');
            } else if t == n + 1 {
                assert((prefix + b)[n + 3] == b[0]);
            } else {
                assert((prefix + b)[n + 3] == b[0]);
            }
        }
    }
    lemma_goes_past(prefix, b, p, w);
    lemma_keeps_first(b, p, w);
}

/// Three percent signs show as one, in a `TEXT` and in an `MTEXT`, where what follows
/// cannot be taken for the rest of a code.
pub proof fn law_escaped_percent_shows(a: Seq<char>, b: Seq<char>)
    requires
        !a.contains('%'),
        b.len() == 0 || (b[0] != '%' && symbol_for(b[0]) is None),
    ensures
        shown_text(a + seq!['%', '%', '%'] + b) == a + seq!['%'] + shown_text(b),
        !a.contains('\\') ==> shown_mtext(a + seq!['%', '%', '%'] + b) == a + seq!['%']
            + shown_mtext(b),
{
    lemma_percent_literals();
    lemma_symbols_with_escape(a, b);
    let b1 = symbols_translated(b);
    let prefix = a + seq!['%'];
    lemma_sign_stays(a, b1, 'u');
    let b2 = replaced(b1, percent_code('u'), ""@);
    lemma_keeps_first(b1, percent_code('u'), ""@);
    lemma_sign_stays(a, b2, 'o');
    if !a.contains('\\') {
        assert forall|i: int| 0 <= i < prefix.len() implies prefix[i] != '\\' by {
            if i < a.len() {
                assert(a.contains(a[i]));
            }
        }
        lemma_formats_keep(prefix, b1);
    }
}

/// A single percent sign is no code.
proof fn lemma_sign_stays(a: Seq<char>, b: Seq<char>, y: char)
    requires
        !a.contains('%'),
        b.len() == 0 || b[0] != '%',
    ensures
        replaced(a + seq!['%'] + b, percent_code(y), ""@) == a + seq!['%'] + replaced(
            b,
            percent_code(y),
            ""@,
        ),
{
    let prefix = a + seq!['%'];
    let p = percent_code(y);
    assert forall|t: int| 0 <= t < prefix.len() implies !#[trigger] stands_at(
        prefix + b,
        p,
        t,
    ) by {
        if stands_at(prefix + b, p, t) {
            lemma_stands(prefix + b, p, t, 0);
            lemma_stands(prefix + b, p, t, 1);
            if t < a.len() {
                assert(a[t] == p[0]);
            } else {
                assert((prefix + b)[t + 1] == b[0]);
            }
        }
    }
    lemma_goes_past(prefix, b, p, ""@);
}

/// Symbols are translated behind a prefix without percent signs.
proof fn lemma_symbols_go_past(a: Seq<char>, b: Seq<char>)
    requires
        !a.contains('%'),
    ensures
        symbols_translated(a + b) == a + symbols_translated(b),
{
    lemma_percent_literals();
    let none = Seq::<char>::empty();
    assert(a + none + b =~= a + b);
    let b1 = replaced(b, "%%c"@, "\u{2205}"@);
    lemma_other_stage(a, none, none, b, "%%c"@, "\u{2205}"@, true);
    let b2 = replaced(b1, "%%d"@, "\u{b0}"@);
    lemma_other_stage(a, none, none, b1, "%%d"@, "\u{b0}"@, true);
    let b3 = replaced(b2, "%%p"@, "\u{b1}"@);
    lemma_other_stage(a, none, none, b2, "%%p"@, "\u{b1}"@, true);
    let b4 = replaced(b3, "%%C"@, "\u{2205}"@);
    lemma_other_stage(a, none, none, b3, "%%C"@, "\u{2205}"@, true);
    let b5 = replaced(b4, "%%D"@, "\u{b0}"@);
    lemma_other_stage(a, none, none, b4, "%%D"@, "\u{b0}"@, true);
    let b6 = replaced(b5, "%%P"@, "\u{b1}"@);
    lemma_other_stage(a, none, none, b5, "%%P"@, "\u{b1}"@, true);
    let b7 = replaced(b6, "%%%"@, "%"@);
    lemma_other_stage(a, none, none, b6, "%%%"@, "%"@, true);
    assert(a + none + b7 =~= a + b7);
}

/// A stage of replacing one backslash code, on a text with another or the same: they
/// are the same or differ at index `k`.
proof fn lemma_format_stage(
    a: Seq<char>,
    code: Seq<char>,
    sym: Seq<char>,
    b: Seq<char>,
    p: Seq<char>,
    w: Seq<char>,
    done: bool,
    k: int,
)
    requires
        !a.contains('\\'),
        !sym.contains('\\'),
        code.len() > 0,
        forall|i: int| 1 <= i < code.len() ==> code[i] != '\\',
        p.len() > 0,
        p[0] == '\\',
        if p == code {
            w == sym
        } else {
            0 < k < p.len() && k < code.len() && p[k] != code[k]
        },
    ensures
        replaced(held(a, code, sym, b, done), p, w) == held(
            a,
            code,
            sym,
            replaced(b, p, w),
            done || p == code,
        ),
{
    if p != code {
        assert forall|t: int| 0 <= t < code.len() implies #[trigger] clashes(code, p, t) by {
            if t == 0 {
                assert(p[k] != code[t + k]);
            } else {
                assert(p[0] != code[t + 0]);
            }
        }
    }
    lemma_stage(a, code, sym, b, p, w, done);
}

/// The backslash stages on a text with a code of a backslash and a character.
proof fn lemma_formats_with_short_code(a: Seq<char>, x: char, b: Seq<char>)
    requires
        !a.contains('\\'),
        x == 'L' || x == 'l' || x == 'O' || x == 'o' || x == 'S' || x == 's' || x == 'P',
    ensures
        formats_removed(a + seq!['\\', x] + b) == a + (if x == 'P' {
            seq!['\n']
        } else {
            Seq::<char>::empty()
        }) + formats_removed(b),
{
    lemma_percent_literals();
    lemma_backslash_literals();
    let code = seq!['\\', x];
    let sym = if x == 'P' {
        seq!['\n']
    } else {
        Seq::<char>::empty()
    };
    assert(code[1] == x);
    assert("\\L"@[1] == 'L' && "\\l"@[1] == 'l' && "\\O"@[1] == 'O' && "\\o"@[1] == 'o');
    assert("\\S"@[1] == 'S' && "\\s"@[1] == 's' && "\\P"@[1] == 'P');
    assert("\\A1;"@[1] == 'A' && "\\A0;"@[1] == 'A');
    let d0 = false;
    let b1 = replaced(b, "\\L"@, ""@);
    lemma_format_stage(a, code, sym, b, "\\L"@, ""@, d0, 1);
    let d1 = d0 || x == 'L';
    let b2 = replaced(b1, "\\l"@, ""@);
    lemma_format_stage(a, code, sym, b1, "\\l"@, ""@, d1, 1);
    let d2 = d1 || x == 'l';
    let b3 = replaced(b2, "\\O"@, ""@);
    lemma_format_stage(a, code, sym, b2, "\\O"@, ""@, d2, 1);
    let d3 = d2 || x == 'O';
    let b4 = replaced(b3, "\\o"@, ""@);
    lemma_format_stage(a, code, sym, b3, "\\o"@, ""@, d3, 1);
    let d4 = d3 || x == 'o';
    let b5 = replaced(b4, "\\S"@, ""@);
    lemma_format_stage(a, code, sym, b4, "\\S"@, ""@, d4, 1);
    let d5 = d4 || x == 'S';
    let b6 = replaced(b5, "\\s"@, ""@);
    lemma_format_stage(a, code, sym, b5, "\\s"@, ""@, d5, 1);
    let d6 = d5 || x == 's';
    let b7 = replaced(b6, "\\P"@, "\n"@);
    lemma_format_stage(a, code, sym, b6, "\\P"@, "\n"@, d6, 1);
    let b8 = replaced(b7, "\\A1;"@, ""@);
    lemma_format_stage(a, code, sym, b7, "\\A1;"@, ""@, true, 1);
    lemma_format_stage(a, code, sym, b8, "\\A0;"@, ""@, true, 1);
}

/// The backslash stages on a text with an alignment code.
proof fn lemma_formats_with_alignment(a: Seq<char>, x: char, b: Seq<char>)
    requires
        !a.contains('\\'),
        x == '0' || x == '1',
    ensures
        formats_removed(a + seq!['\\', 'A', x, ';'] + b) == a + formats_removed(b),
{
    lemma_percent_literals();
    lemma_backslash_literals();
    let code = seq!['\\', 'A', x, ';'];
    let sym = Seq::<char>::empty();
    assert(code[1] == 'A' && code[2] == x && code[3] == ';');
    assert("\\L"@[1] == 'L' && "\\l"@[1] == 'l' && "\\O"@[1] == 'O' && "\\o"@[1] == 'o');
    assert("\\S"@[1] == 'S' && "\\s"@[1] == 's' && "\\P"@[1] == 'P');
    assert("\\A1;"@[2] == '1' && "\\A0;"@[2] == '0');
    let b1 = replaced(b, "\\L"@, ""@);
    lemma_format_stage(a, code, sym, b, "\\L"@, ""@, false, 1);
    let b2 = replaced(b1, "\\l"@, ""@);
    lemma_format_stage(a, code, sym, b1, "\\l"@, ""@, false, 1);
    let b3 = replaced(b2, "\\O"@, ""@);
    lemma_format_stage(a, code, sym, b2, "\\O"@, ""@, false, 1);
    let b4 = replaced(b3, "\\o"@, ""@);
    lemma_format_stage(a, code, sym, b3, "\\o"@, ""@, false, 1);
    let b5 = replaced(b4, "\\S"@, ""@);
    lemma_format_stage(a, code, sym, b4, "\\S"@, ""@, false, 1);
    let b6 = replaced(b5, "\\s"@, ""@);
    lemma_format_stage(a, code, sym, b5, "\\s"@, ""@, false, 1);
    let b7 = replaced(b6, "\\P"@, "\n"@);
    lemma_format_stage(a, code, sym, b6, "\\P"@, "\n"@, false, 1);
    let b8 = replaced(b7, "\\A1;"@, ""@);
    lemma_format_stage(a, code, sym, b7, "\\A1;"@, ""@, false, 2);
    let b9 = replaced(b8, "\\A0;"@, ""@);
    lemma_format_stage(a, code, sym, b8, "\\A0;"@, ""@, x == '1', 2);
    assert(a + sym + b9 =~= a + b9);
}

/// In an `MTEXT` the toggles for underline, overline and strike-through show as
/// nothing, whatever follows them.
pub proof fn law_toggles_do_not_show_in_mtext(a: Seq<char>, x: char, b: Seq<char>)
    requires
        !a.contains('%'),
        !a.contains('\\'),
        x == 'L' || x == 'l' || x == 'O' || x == 'o' || x == 'S' || x == 's',
    ensures
        shown_mtext(a + seq!['\\', x] + b) == a + shown_mtext(b),
{
    let code = seq!['\\', x];
    assert(!(a + code).contains('%')) by {
        assert forall|i: int| 0 <= i < (a + code).len() implies (a + code)[i] != '%' by {
            if i < a.len() {
                assert(a.contains(a[i]));
            }
        }
    }
    lemma_symbols_go_past(a + code, b);
    lemma_formats_with_short_code(a, x, symbols_translated(b));
    assert(a + Seq::<char>::empty() =~= a);
}

/// In an `MTEXT` a paragraph code starts a new line, whatever follows it.
pub proof fn law_paragraphs_start_lines(a: Seq<char>, b: Seq<char>)
    requires
        !a.contains('%'),
        !a.contains('\\'),
    ensures
        shown_mtext(a + seq!['\\', 'P'] + b) == a + seq!['\n'] + shown_mtext(b),
{
    let code = seq!['\\', 'P'];
    assert(!(a + code).contains('%')) by {
        assert forall|i: int| 0 <= i < (a + code).len() implies (a + code)[i] != '%' by {
            if i < a.len() {
                assert(a.contains(a[i]));
            }
        }
    }
    lemma_symbols_go_past(a + code, b);
    lemma_formats_with_short_code(a, 'P', symbols_translated(b));
}

/// In an `MTEXT` the codes for alignment to the base line and to the middle show as
/// nothing, whatever follows them.
pub proof fn law_alignments_do_not_show(a: Seq<char>, x: char, b: Seq<char>)
    requires
        !a.contains('%'),
        !a.contains('\\'),
        x == '0' || x == '1',
    ensures
        shown_mtext(a + seq!['\\', 'A', x, ';'] + b) == a + shown_mtext(b),
{
    let code = seq!['\\', 'A', x, ';'];
    assert(!(a + code).contains('%')) by {
        assert forall|i: int| 0 <= i < (a + code).len() implies (a + code)[i] != '%' by {
            if i < a.len() {
                assert(a.contains(a[i]));
            }
        }
    }
    lemma_symbols_go_past(a + code, b);
    lemma_formats_with_alignment(a, x, symbols_translated(b));
}

/// A text without a pattern is kept where the pattern is replaced.
proof fn lemma_absent_is_kept(s: Seq<char>, p: Seq<char>, w: Seq<char>)
    requires
        p.len() > 0,
        !occurs(s, p),
    ensures
        replaced(s, p, w) == s,
{
    let none = Seq::<char>::empty();
    assert(s + none =~= s);
    assert forall|t: int| 0 <= t < s.len() implies !#[trigger] stands_at(s + none, p, t) by {
        assert(!stands_at(s, p, t));
    }
    lemma_goes_past(s, none, p, w);
    assert(s + replaced(none, p, w) =~= s);
}

/// Whether a text starts with a percent sign and this character.
spec fn starts_with_sign(s: Seq<char>, y: char) -> bool {
    s.len() > 1 && s[0] == '%' && s[1] == y
}

/// A percent code in a text, from its characters.
proof fn lemma_code_stands(s: Seq<char>, y: char, t: int)
    requires
        0 <= t,
        t + 3 <= s.len(),
        s[t] == '%',
        s[t + 1] == '%',
        s[t + 2] == y,
    ensures
        occurs(s, percent_code(y)),
{
    assert(s.subrange(t, t + 3) =~= percent_code(y));
    assert(stands_at(s, percent_code(y), t));
}

/// A tail of a text without a pattern is without it.
proof fn lemma_tail_is_without(s: Seq<char>, p: Seq<char>, n: int)
    requires
        !occurs(s, p),
        0 <= n <= s.len(),
    ensures
        !occurs(s.skip(n), p),
{
    assert forall|t: int| !#[trigger] stands_at(s.skip(n), p, t) by {
        if stands_at(s.skip(n), p, t) {
            assert(s.skip(n).subrange(t, t + p.len()) =~= s.subrange(t + n, t + n + p.len()));
            assert(stands_at(s, p, t + n));
        }
    }
}

/// Translating one symbol makes no other percent code.
proof fn lemma_makes_no_code(s: Seq<char>, z: char, w: Seq<char>, y: char)
    requires
        !occurs(s, percent_code(y)),
        y != '%',
        z != y,
        w.len() == 1,
        w[0] == '%' ==> z == '%',
        w[0] != y,
    ensures
        !occurs(replaced(s, percent_code(z), w), percent_code(y)),
        starts_with_sign(replaced(s, percent_code(z), w), y) ==> starts_with_sign(s, y),
        ({
            let out = replaced(s, percent_code(z), w);
            out.len() > 0 && out[0] == y ==> s.len() > 0 && s[0] == y
        }),
    decreases s.len(),
{
    let p = percent_code(z);
    let q = percent_code(y);
    let out = replaced(s, p, w);
    if s.len() == 0 {
        assert forall|t: int| !#[trigger] stands_at(out, q, t) by {
            assert(q.len() == 3);
        }
    } else {
        let n: int = if stands_at(s, p, 0) {
            3
        } else {
            1
        };
        let head = if stands_at(s, p, 0) {
            w
        } else {
            seq![s[0]]
        };
        let rest = s.skip(n);
        let tail = replaced(rest, p, w);
        assert(out == head + tail);
        if stands_at(s, p, 0) {
            lemma_stands(s, p, 0, 0);
            lemma_stands(s, p, 0, 1);
            lemma_stands(s, p, 0, 2);
        }
        lemma_tail_is_without(s, q, n);
        lemma_makes_no_code(rest, z, w, y);
        assert forall|t: int| !#[trigger] stands_at(out, q, t) by {
            if stands_at(out, q, t) {
                lemma_stands(out, q, t, 0);
                lemma_stands(out, q, t, 1);
                lemma_stands(out, q, t, 2);
                if t == 0 {
                    assert(tail[0] == out[1] && tail[1] == out[2]);
                    assert(starts_with_sign(tail, y));
                    assert(starts_with_sign(rest, y));
                    assert(s[n] == '%' && s[n + 1] == y);
                    lemma_code_stands(s, y, n - 1);
                } else {
                    assert(out.subrange(t, t + 3) =~= tail.subrange(t - 1, t + 2));
                    assert(stands_at(tail, q, t - 1));
                }
            }
        }
        if starts_with_sign(out, y) {
            assert(tail[0] == out[1]);
            assert(rest[0] == y);
            assert(s[n] == y);
            if stands_at(s, p, 0) {
                lemma_code_stands(s, y, 1);
            }
        }
    }
}

/// Translating symbols makes no code of a toggle.
proof fn lemma_symbols_make_no_code(s: Seq<char>, y: char)
    requires
        !occurs(s, percent_code(y)),
        y == 'u' || y == 'o',
    ensures
        !occurs(symbols_translated(s), percent_code(y)),
{
    lemma_percent_literals();
    let s1 = replaced(s, percent_code('c'), "\u{2205}"@);
    lemma_makes_no_code(s, 'c', "\u{2205}"@, y);
    let s2 = replaced(s1, percent_code('d'), "\u{b0}"@);
    lemma_makes_no_code(s1, 'd', "\u{b0}"@, y);
    let s3 = replaced(s2, percent_code('p'), "\u{b1}"@);
    lemma_makes_no_code(s2, 'p', "\u{b1}"@, y);
    let s4 = replaced(s3, percent_code('C'), "\u{2205}"@);
    lemma_makes_no_code(s3, 'C', "\u{2205}"@, y);
    let s5 = replaced(s4, percent_code('D'), "\u{b0}"@);
    lemma_makes_no_code(s4, 'D', "\u{b0}"@, y);
    let s6 = replaced(s5, percent_code('P'), "\u{b1}"@);
    lemma_makes_no_code(s5, 'P', "\u{b1}"@, y);
    lemma_makes_no_code(s6, '%', "%"@, y);
}

/// Replacing brings in no character that neither the text nor the replacement has.
proof fn lemma_makes_no_char(s: Seq<char>, p: Seq<char>, w: Seq<char>, x: char)
    requires
        !s.contains(x),
        !w.contains(x),
        p.len() > 0,
    ensures
        !replaced(s, p, w).contains(x),
    decreases s.len(),
{
    if s.len() > 0 {
        let n: int = if stands_at(s, p, 0) {
            p.len() as int
        } else {
            1
        };
        let rest = s.skip(n);
        assert forall|i: int| 0 <= i < rest.len() implies rest[i] != x by {
            assert(s.contains(s[i + n]));
        }
        lemma_makes_no_char(rest, p, w, x);
        let tail = replaced(rest, p, w);
        let head = if stands_at(s, p, 0) {
            w
        } else {
            seq![s[0]]
        };
        assert(s.contains(s[0]));
        assert forall|i: int| 0 <= i < (head + tail).len() implies (head + tail)[i] != x by {
            if i < head.len() {
                assert(stands_at(s, p, 0) ==> w.contains(w[i]));
            } else {
                assert(tail.contains(tail[i - head.len()]));
            }
        }
    }
}

/// An `MTEXT` shows what a `TEXT` with the same contents shows, where these have no
/// backslash and none of the codes that only one of them knows.
pub proof fn law_texts_agree(s: Seq<char>)
    requires
        !s.contains('\\'),
        !occurs(s, seq!['%', '%', 'u']),
        !occurs(s, seq!['%', '%', 'o']),
    ensures
        shown_mtext(s) == shown_text(s),
{
    lemma_percent_literals();
    lemma_symbols_make_no_code(s, 'u');
    lemma_symbols_make_no_code(s, 'o');
    let t = symbols_translated(s);
    lemma_absent_is_kept(t, percent_code('u'), ""@);
    lemma_absent_is_kept(t, percent_code('o'), ""@);
    let x = '\\';
    let s1 = replaced(s, "%%c"@, "\u{2205}"@);
    lemma_makes_no_char(s, "%%c"@, "\u{2205}"@, x);
    let s2 = replaced(s1, "%%d"@, "\u{b0}"@);
    lemma_makes_no_char(s1, "%%d"@, "\u{b0}"@, x);
    let s3 = replaced(s2, "%%p"@, "\u{b1}"@);
    lemma_makes_no_char(s2, "%%p"@, "\u{b1}"@, x);
    let s4 = replaced(s3, "%%C"@, "\u{2205}"@);
    lemma_makes_no_char(s3, "%%C"@, "\u{2205}"@, x);
    let s5 = replaced(s4, "%%D"@, "\u{b0}"@);
    lemma_makes_no_char(s4, "%%D"@, "\u{b0}"@, x);
    let s6 = replaced(s5, "%%P"@, "\u{b1}"@);
    lemma_makes_no_char(s5, "%%P"@, "\u{b1}"@, x);
    lemma_makes_no_char(s6, "%%%"@, "%"@, x);
    let none = Seq::<char>::empty();
    assert(t + none =~= t);
    lemma_formats_keep(t, none);
    assert(formats_removed(none) =~= none);
    assert(t + formats_removed(none) =~= t);
}

/// The chunks of an `MTEXT` follow each other: the first may as well stand at the end
/// of the text before it.
pub proof fn law_chunks_follow_each_other(text: Seq<char>, extended: Seq<String>)
    ensures
        extended.len() == 0 ==> joined(text, extended, 0) == text,
        extended.len() > 0 ==> joined(text, extended, extended.len() as int) == joined(
            text + extended[0]@,
            extended.skip(1),
            extended.len() - 1,
        ),
{
    if extended.len() > 0 {
        lemma_chunks_shift(text, extended, extended.len() as int);
    }
}

proof fn lemma_chunks_shift(text: Seq<char>, extended: Seq<String>, n: int)
    requires
        0 < n <= extended.len(),
    ensures
        joined(text, extended, n) == joined(text + extended[0]@, extended.skip(1), n - 1),
    decreases n,
{
    if n > 1 {
        lemma_chunks_shift(text, extended, n - 1);
        assert(extended.skip(1)[n - 2] == extended[n - 1]);
    } else {
        assert(joined(text, extended, 0) == text);
    }
}

/// Replacing a pattern replaces its first occurrence and goes on behind it; a text without
/// the pattern is kept.
pub proof fn law_occurrences_are_replaced(s: Seq<char>, p: Seq<char>, w: Seq<char>, t: int)
    requires
        p.len() > 0,
    ensures
        stands_at(s, p, t) && (forall|j: int| 0 <= j < t ==> !#[trigger] stands_at(s, p, j))
            ==> replaced(s, p, w) == s.take(t) + w + replaced(s.skip(t + p.len()), p, w),
        !occurs(s, p) ==> replaced(s, p, w) == s,
{
    if stands_at(s, p, t) && (forall|j: int| 0 <= j < t ==> !#[trigger] stands_at(s, p, j)) {
        let a = s.take(t);
        let tail = s.skip(t);
        assert(a + tail =~= s);
        lemma_goes_past(a, tail, p, w);
        assert(tail.subrange(0, p.len() as int) =~= s.subrange(t, t + p.len()));
        assert(stands_at(tail, p, 0));
        assert(tail.skip(p.len() as int) =~= s.skip(t + p.len()));
        assert(a + (w + replaced(s.skip(t + p.len()), p, w)) =~= a + w + replaced(
            s.skip(t + p.len()),
            p,
            w,
        ));
    }
    if !occurs(s, p) {
        lemma_absent_is_kept(s, p, w);
    }
}

/// Replacing goes past a prefix that clashes with the pattern everywhere.
proof fn lemma_goes_past_clashes(prefix: Seq<char>, b: Seq<char>, p: Seq<char>, w: Seq<char>)
    requires
        p.len() > 0,
        forall|t: int| 0 <= t < prefix.len() ==> #[trigger] clashes(prefix, p, t),
    ensures
        replaced(prefix + b, p, w) == prefix + replaced(b, p, w),
{
    assert forall|t: int| 0 <= t < prefix.len() implies !#[trigger] stands_at(
        prefix + b,
        p,
        t,
    ) by {
        if stands_at(prefix + b, p, t) {
            assert(clashes(prefix, p, t));
            let i = choose|i: int|
                0 <= i < p.len() && 0 <= t + i < prefix.len() && #[trigger] p[i] != prefix[t + i];
            lemma_stands(prefix + b, p, t, i);
        }
    }
    lemma_goes_past(prefix, b, p, w);
}

/// A text without percent signs and something behind it clash with a percent code if the
/// latter does.
proof fn lemma_clashes_behind(a: Seq<char>, code: Seq<char>, y: char)
    requires
        !a.contains('%'),
        forall|t: int| 0 <= t < code.len() ==> #[trigger] clashes(code, percent_code(y), t),
    ensures
        forall|t: int| 0 <= t < (a + code).len() ==> #[trigger] clashes(
            a + code,
            percent_code(y),
            t,
        ),
{
    let p = percent_code(y);
    assert forall|t: int| 0 <= t < (a + code).len() implies #[trigger] clashes(a + code, p, t) by {
        if t < a.len() {
            assert(a.contains(a[t]));
            assert(p[0] != (a + code)[t + 0]);
        } else {
            assert(clashes(code, p, t - a.len()));
            let i = choose|i: int|
                0 <= i < p.len() && 0 <= t - a.len() + i < code.len() && #[trigger] p[i]
                    != code[t - a.len() + i];
            assert(p[i] != (a + code)[t + i]);
        }
    }
}

/// A stage of replacing one percent code, on a text with a percent sign in front of another
/// or of what that was replaced by.
proof fn lemma_sign_stage(
    a: Seq<char>,
    x: char,
    sym: char,
    b: Seq<char>,
    y: char,
    w: Seq<char>,
    done: bool,
)
    requires
        !a.contains('%'),
        sym != '%',
        x != '%',
        y != '%' || done,
        x == y ==> w == seq![sym],
        x != y || !done,
        y != sym,
    ensures
        replaced(held(a + seq!['%'], percent_code(x), seq![sym], b, done), percent_code(y), w)
            == held(
            a + seq!['%'],
            percent_code(x),
            seq![sym],
            replaced(b, percent_code(y), w),
            done || x == y,
        ),
{
    let p = percent_code(y);
    let signed = a + seq!['%'];
    assert(p[0] == '%' && p[1] == '%' && p[2] == y);
    if done {
        let code = seq!['%', sym];
        assert(code[0] == '%' && code[1] == sym);
        assert forall|t: int| 0 <= t < code.len() implies #[trigger] clashes(code, p, t) by {
            if t == 0 {
                assert(p[1] != code[t + 1]);
            } else {
                assert(p[0] != code[t + 0]);
            }
        }
        lemma_clashes_behind(a, code, y);
        lemma_goes_past_clashes(a + code, b, p, w);
        assert(signed + seq![sym] =~= a + code);
    } else if x == y {
        let tail = p + b;
        let all = signed + p + b;
        assert(all =~= signed + tail);
        assert forall|t: int| 0 <= t < signed.len() implies !#[trigger] stands_at(
            signed + tail,
            p,
            t,
        ) by {
            if stands_at(signed + tail, p, t) {
                lemma_stands(signed + tail, p, t, 0);
                lemma_stands(signed + tail, p, t, 2);
                if t < a.len() {
                    assert(a.contains(a[t]));
                } else {
                    assert((signed + tail)[t + 2] == tail[1]);
                }
            }
        }
        lemma_goes_past(signed, tail, p, w);
        assert(tail.subrange(0, 3) =~= p);
        assert(stands_at(tail, p, 0));
        assert(tail.skip(3) =~= b);
        assert(signed + (w + replaced(b, p, w)) =~= signed + w + replaced(b, p, w));
    } else {
        let code = seq!['%', '%', '%', x];
        assert(code[0] == '%' && code[1] == '%' && code[2] == '%' && code[3] == x);
        assert forall|t: int| 0 <= t < code.len() implies #[trigger] clashes(code, p, t) by {
            if t == 0 {
                assert(p[2] != code[t + 2]);
            } else if t == 1 {
                assert(p[2] != code[t + 2]);
            } else if t == 2 {
                assert(p[1] != code[t + 1]);
            } else {
                assert(p[0] != code[t + 0]);
            }
        }
        lemma_clashes_behind(a, code, y);
        lemma_goes_past_clashes(a + code, b, p, w);
        assert(signed + percent_code(x) =~= a + code);
    }
}

/// A code for a symbol counts before an escaped percent sign does: behind one more percent
/// sign it shows as the symbol too, with the sign in front of it.
pub proof fn law_symbols_come_before_escapes(a: Seq<char>, x: char, b: Seq<char>)
    requires
        !a.contains('%'),
        symbol_for(x) is Some,
    ensures
        shown_text(a + seq!['%', '%', '%', x] + b) == a + seq!['%', symbol_for(x)->0] + shown_text(
            b,
        ),
        !a.contains('\\') ==> shown_mtext(a + seq!['%', '%', '%', x] + b) == a + seq![
            '%',
            symbol_for(x)->0,
        ] + shown_mtext(b),
{
    lemma_percent_literals();
    let sym = symbol_for(x)->0;
    let signed = a + seq!['%'];
    assert(a + seq!['%', '%', '%', x] =~= signed + percent_code(x));
    assert(a + seq!['%', sym] =~= signed + seq![sym]);
    let b1 = replaced(b, percent_code('c'), "\u{2205}"@);
    lemma_sign_stage(a, x, sym, b, 'c', "\u{2205}"@, false);
    let d1 = x == 'c';
    let b2 = replaced(b1, percent_code('d'), "\u{b0}"@);
    lemma_sign_stage(a, x, sym, b1, 'd', "\u{b0}"@, d1);
    let d2 = d1 || x == 'd';
    let b3 = replaced(b2, percent_code('p'), "\u{b1}"@);
    lemma_sign_stage(a, x, sym, b2, 'p', "\u{b1}"@, d2);
    let d3 = d2 || x == 'p';
    let b4 = replaced(b3, percent_code('C'), "\u{2205}"@);
    lemma_sign_stage(a, x, sym, b3, 'C', "\u{2205}"@, d3);
    let d4 = d3 || x == 'C';
    let b5 = replaced(b4, percent_code('D'), "\u{b0}"@);
    lemma_sign_stage(a, x, sym, b4, 'D', "\u{b0}"@, d4);
    let d5 = d4 || x == 'D';
    let b6 = replaced(b5, percent_code('P'), "\u{b1}"@);
    lemma_sign_stage(a, x, sym, b5, 'P', "\u{b1}"@, d5);
    let b7 = replaced(b6, percent_code('%'), "%"@);
    lemma_sign_stage(a, x, sym, b6, '%', "%"@, true);
    lemma_sign_stage(a, x, sym, b7, 'u', ""@, true);
    let b8 = replaced(b7, percent_code('u'), ""@);
    lemma_sign_stage(a, x, sym, b8, 'o', ""@, true);
    if !a.contains('\\') {
        let prefix = signed + seq![sym];
        assert forall|i: int| 0 <= i < prefix.len() implies prefix[i] != '\\' by {
            if i < a.len() {
                assert(a.contains(a[i]));
            }
        }
        lemma_formats_keep(prefix, symbols_translated(b));
    }
}

/// In an `MTEXT` symbols are looked for before toggles vanish: a code that a toggle parts
/// stays what it is without the toggle.
pub proof fn law_toggles_part_symbols(a: Seq<char>, x: char, b: Seq<char>)
    requires
        !a.contains('%'),
        !a.contains('\\'),
        x == 'L' || x == 'l' || x == 'O' || x == 'o' || x == 'S' || x == 's',
    ensures
        shown_mtext(a + seq!['%', '%', '\\', x] + b) == a + seq!['%', '%'] + shown_mtext(b),
{
    lemma_percent_literals();
    let code = seq!['%', '%', '\\', x];
    let prefix = a + code;
    lemma_parted_stage(a, x, b, 'c', "\u{2205}"@);
    let b1 = replaced(b, percent_code('c'), "\u{2205}"@);
    lemma_parted_stage(a, x, b1, 'd', "\u{b0}"@);
    let b2 = replaced(b1, percent_code('d'), "\u{b0}"@);
    lemma_parted_stage(a, x, b2, 'p', "\u{b1}"@);
    let b3 = replaced(b2, percent_code('p'), "\u{b1}"@);
    lemma_parted_stage(a, x, b3, 'C', "\u{2205}"@);
    let b4 = replaced(b3, percent_code('C'), "\u{2205}"@);
    lemma_parted_stage(a, x, b4, 'D', "\u{b0}"@);
    let b5 = replaced(b4, percent_code('D'), "\u{b0}"@);
    lemma_parted_stage(a, x, b5, 'P', "\u{b1}"@);
    let b6 = replaced(b5, percent_code('P'), "\u{b1}"@);
    lemma_parted_stage(a, x, b6, '%', "%"@);
    let signs = a + seq!['%', '%'];
    assert(!signs.contains('\\')) by {
        assert forall|i: int| 0 <= i < signs.len() implies signs[i] != '\\' by {
            if i < a.len() {
                assert(a.contains(a[i]));
            }
        }
    }
    assert(prefix =~= signs + seq!['\\', x]);
    lemma_formats_with_short_code(signs, x, symbols_translated(b));
    assert(signs + Seq::<char>::empty() =~= signs);
}

proof fn lemma_parted_stage(a: Seq<char>, x: char, b: Seq<char>, y: char, w: Seq<char>)
    requires
        !a.contains('%'),
        x != '%',
        y != '\\',
    ensures
        replaced(a + seq!['%', '%', '\\', x] + b, percent_code(y), w) == a + seq![
            '%',
            '%',
            '\\',
            x,
        ] + replaced(b, percent_code(y), w),
{
    let p = percent_code(y);
    let code = seq!['%', '%', '\\', x];
    assert(p[0] == '%' && p[1] == '%' && p[2] == y);
    assert(code[0] == '%' && code[1] == '%' && code[2] == '\\' && code[3] == x);
    assert forall|t: int| 0 <= t < code.len() implies #[trigger] clashes(code, p, t) by {
        if t == 0 {
            assert(p[2] != code[t + 2]);
        } else if t == 1 {
            assert(p[1] != code[t + 1]);
        } else {
            assert(p[0] != code[t + 0]);
        }
    }
    lemma_clashes_behind(a, code, y);
    lemma_goes_past_clashes(a + code, b, p, w);
}

/// In a `TEXT` escaped percent signs are looked for before toggles: four percent signs in
/// front of the letter of a toggle are one, escaped, and then one of the toggle.
pub proof fn law_escapes_come_before_toggles(a: Seq<char>, x: char, b: Seq<char>)
    requires
        !a.contains('%'),
        x == 'u' || x == 'o',
    ensures
        shown_text(a + seq!['%', '%', '%', '%', x] + b) == a + shown_text(b),
{
    lemma_percent_literals();
    let code = seq!['%', '%', '%', '%', x];
    lemma_four_signs_stage(a, x, b, 'c', "\u{2205}"@);
    let b1 = replaced(b, percent_code('c'), "\u{2205}"@);
    lemma_four_signs_stage(a, x, b1, 'd', "\u{b0}"@);
    let b2 = replaced(b1, percent_code('d'), "\u{b0}"@);
    lemma_four_signs_stage(a, x, b2, 'p', "\u{b1}"@);
    let b3 = replaced(b2, percent_code('p'), "\u{b1}"@);
    lemma_four_signs_stage(a, x, b3, 'C', "\u{2205}"@);
    let b4 = replaced(b3, percent_code('C'), "\u{2205}"@);
    lemma_four_signs_stage(a, x, b4, 'D', "\u{b0}"@);
    let b5 = replaced(b4, percent_code('D'), "\u{b0}"@);
    lemma_four_signs_stage(a, x, b5, 'P', "\u{b1}"@);
    let b6 = replaced(b5, percent_code('P'), "\u{b1}"@);
    let p = percent_code('%');
    let behind = seq!['%', x];
    let tail = p + (behind + b6);
    assert(a + code + b6 =~= a + tail);
    assert forall|t: int| 0 <= t < a.len() implies !#[trigger] stands_at(a + tail, p, t) by {
        if stands_at(a + tail, p, t) {
            lemma_stands(a + tail, p, t, 0);
            assert(a.contains(a[t]));
        }
    }
    lemma_goes_past(a, tail, p, "%"@);
    assert(tail.subrange(0, 3) =~= p);
    assert(stands_at(tail, p, 0));
    assert(tail.skip(3) =~= behind + b6);
    assert(behind[0] == '%' && behind[1] == x);
    assert forall|t: int| 0 <= t < behind.len() implies #[trigger] clashes(behind, p, t) by {
        if t == 0 {
            assert(p[1] != behind[t + 1]);
        } else {
            assert(p[0] != behind[t + 0]);
        }
    }
    lemma_goes_past_clashes(behind, b6, p, "%"@);
    let b7 = replaced(b6, p, "%"@);
    assert(a + (seq!['%'] + (behind + b7)) =~= a + percent_code(x) + b7);
    let none = Seq::<char>::empty();
    lemma_percent_stage(a, x, none, b7, 'u', ""@, false);
    let b8 = replaced(b7, percent_code('u'), ""@);
    lemma_percent_stage(a, x, none, b8, 'o', ""@, x == 'u');
    assert(a + none + shown_text(b) =~= a + shown_text(b));
}

proof fn lemma_four_signs_stage(a: Seq<char>, x: char, b: Seq<char>, y: char, w: Seq<char>)
    requires
        !a.contains('%'),
        x != '%',
        y != '%',
        x != y,
    ensures
        replaced(a + seq!['%', '%', '%', '%', x] + b, percent_code(y), w) == a + seq![
            '%',
            '%',
            '%',
            '%',
            x,
        ] + replaced(b, percent_code(y), w),
{
    let p = percent_code(y);
    let code = seq!['%', '%', '%', '%', x];
    assert(p[0] == '%' && p[1] == '%' && p[2] == y);
    assert(code[2] == '%' && code[3] == '%' && code[4] == x);
    assert forall|t: int| 0 <= t < code.len() implies #[trigger] clashes(code, p, t) by {
        if t <= 2 {
            assert(p[2] != code[t + 2]);
        } else if t == 3 {
            assert(p[1] != code[t + 1]);
        } else {
            assert(p[0] != code[t + 0]);
        }
    }
    lemma_clashes_behind(a, code, y);
    lemma_goes_past_clashes(a + code, b, p, w);
}

} // verus!
