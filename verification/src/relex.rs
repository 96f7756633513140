use crate::scanner::{alnum_end, digits_end, find_quote, is_alnum, is_alpha, is_digit,
    lemma_alnum_end, lemma_digits_end, lemma_find_quote, lemma_step_bounds, sp_scan,
    sp_scan_from, sp_scan_step};
use crate::token::{spec_kind_of, TokenKind, TokenV};
use vstd::prelude::*;

verus! {

/// The reconstructed lexeme stream: the lexemes of the tokens, joined by
/// a single space.
pub open spec fn join_lexemes(toks: Seq<TokenV>) -> Seq<char>
    decreases toks.len(),
{
    if toks.len() == 0 {
        Seq::empty()
    } else if toks.len() == 1 {
        toks[0].lexeme
    } else {
        toks[0].lexeme + seq![' '] + join_lexemes(toks.drop_first())
    }
}

/// The token-kind sequence of a token stream.
pub open spec fn kinds_of(toks: Seq<TokenV>) -> Seq<TokenKind> {
    toks.map_values(|t: TokenV| spec_kind_of(t.ty))
}

/// A token that some scanner step emitted, wherever it stood.
pub open spec fn from_step(t: TokenV) -> bool {
    exists|src1: Seq<char>, i1: int, l1: u64|
        0 <= i1 < src1.len() && #[trigger] sp_scan_step(src1, i1, l1).token == Some(t)
}

/// Every token a scan emits, the closing end-of-input token aside, came
/// from a scanner step.
proof fn lemma_scan_from_steps(src: Seq<char>, i: int, line: u64)
    ensures
        forall|idx: int|
            0 <= idx < sp_scan_from(src, i, line).toks.len() ==> from_step(
                #[trigger] sp_scan_from(src, i, line).toks[idx],
            ),
    decreases src.len() - i,
{
    if 0 <= i < src.len() {
        let st = sp_scan_step(src, i, line);
        lemma_step_bounds(src, i, line);
        lemma_scan_from_steps(src, st.next, st.line);
        let rest = sp_scan_from(src, st.next, st.line);
        let whole = sp_scan_from(src, i, line).toks;
        assert forall|idx: int| 0 <= idx < whole.len() implies from_step(
            #[trigger] whole[idx],
        ) by {
            match st.token {
                Some(t) => {
                    if idx == 0 {
                        assert(whole[idx] == t);
                        assert(sp_scan_step(src, i, line).token == Some(t));
                        assert(from_step(t));
                    } else {
                        assert(whole[idx] == rest.toks[idx - 1]);
                    }
                },
                None => {
                    assert(whole[idx] == rest.toks[idx]);
                },
            }
        }
    }
}

/// A step's token carries exactly the source slice the step consumed.
proof fn lemma_step_lexeme(src: Seq<char>, i: int, line: u64)
    requires
        0 <= i < src.len(),
        sp_scan_step(src, i, line).token is Some,
    ensures
        sp_scan_step(src, i, line).token->Some_0.lexeme == src.subrange(
            i,
            sp_scan_step(src, i, line).next,
        ),
        sp_scan_step(src, i, line).next - i >= 1,
        sp_scan_step(src, i, line).next <= src.len(),
{
    lemma_step_bounds(src, i, line);
    lemma_find_quote(src, i + 1);
    lemma_digits_end(src, i + 1);
    lemma_alnum_end(src, i + 1);
}

/// The first run of digits starting at `j` ends exactly at `m`.
proof fn lemma_digits_end_at(src: Seq<char>, j: int, m: int)
    requires
        0 <= j <= m <= src.len(),
        forall|k: int| j <= k < m ==> is_digit(#[trigger] src[k]),
        m == src.len() || !is_digit(src[m]),
    ensures
        digits_end(src, j) == m,
    decreases m - j,
{
    if j < m {
        lemma_digits_end_at(src, j + 1, m);
    }
}

/// The first identifier-continuation run starting at `j` ends at `m`.
proof fn lemma_alnum_end_at(src: Seq<char>, j: int, m: int)
    requires
        0 <= j <= m <= src.len(),
        forall|k: int| j <= k < m ==> is_alnum(#[trigger] src[k]),
        m == src.len() || !is_alnum(src[m]),
    ensures
        alnum_end(src, j) == m,
    decreases m - j,
{
    if j < m {
        lemma_alnum_end_at(src, j + 1, m);
    }
}

/// The first double quote at or after `j` stands exactly at `m`.
proof fn lemma_find_quote_at(src: Seq<char>, j: int, m: int)
    requires
        0 <= j <= m < src.len(),
        forall|k: int| j <= k < m ==> #[trigger] src[k] != '"',
        src[m] == '"',
    ensures
        find_quote(src, j) == m,
    decreases m - j,
{
    if j < m {
        lemma_find_quote_at(src, j + 1, m);
    }
}

/// Scanning one step is local: a step that emitted a token in one source
/// emits a token of the same tag, consuming the same slice, wherever
/// that slice reappears followed by a space or the end of input.
#[verifier::rlimit(100)]
proof fn lemma_step_kind_local(src1: Seq<char>, i1: int, l1: u64, src2: Seq<char>, p: int, l2: u64)
    requires
        0 <= i1 < src1.len(),
        sp_scan_step(src1, i1, l1).token is Some,
        0 <= p,
        p + (sp_scan_step(src1, i1, l1).next - i1) <= src2.len(),
        src2.subrange(p, p + (sp_scan_step(src1, i1, l1).next - i1)) == src1.subrange(
            i1,
            sp_scan_step(src1, i1, l1).next,
        ),
        p + (sp_scan_step(src1, i1, l1).next - i1) == src2.len() || src2[p + (sp_scan_step(
            src1,
            i1,
            l1,
        ).next - i1)] == ' ',
    ensures
        ({
            let st1 = sp_scan_step(src1, i1, l1);
            let st2 = sp_scan_step(src2, p, l2);
            &&& st2.token is Some
            &&& spec_kind_of(st2.token->Some_0.ty) == spec_kind_of(st1.token->Some_0.ty)
            &&& st2.diag is None
            &&& st2.next == p + (st1.next - i1)
        }),
{
    let st1 = sp_scan_step(src1, i1, l1);
    let n = st1.next - i1;
    lemma_step_bounds(src1, i1, l1);
    assert forall|j: int| 0 <= j < n implies #[trigger] src2[p + j] == src1[i1 + j] by {
        assert(src2.subrange(p, p + n)[j] == src2[p + j]);
        assert(src1.subrange(i1, i1 + n)[j] == src1[i1 + j]);
    }
    let c = src1[i1];
    assert(src2[p + 0] == src1[i1 + 0]);
    assert(src2[p] == c);
    if c == '(' || c == ')' || c == '{' || c == '}' || c == ',' || c == '.' || c == '-' || c == '+'
        || c == ';' || c == '*' {
        // one-character tokens: nothing beyond the slice is read
    } else if c == '!' || c == '=' || c == '<' || c == '>' {
        if i1 + 1 < src1.len() && src1[i1 + 1] == '=' {
            assert(n == 2);
            assert(src2[p + 1] == src1[i1 + 1]);
        } else {
            assert(n == 1);
            assert(p + 1 == src2.len() || src2[p + 1] == ' ');
        }
    } else if c == '/' {
        assert(n == 1);
        assert(p + 1 == src2.len() || src2[p + 1] == ' ');
    } else if c == ' ' || c == '\r' || c == '\t' || c == '\n' {
        assert(false);
    } else if c == '"' {
        let e1 = find_quote(src1, i1 + 1);
        lemma_find_quote(src1, i1 + 1);
        assert(e1 < src1.len());
        assert(n == e1 + 1 - i1);
        assert forall|k: int| p + 1 <= k < p + n - 1 implies #[trigger] src2[k] != '"' by {
            let j = k - p;
            assert(src2[p + j] == src1[i1 + j]);
        }
        assert(src2[p + (n - 1)] == src1[i1 + (n - 1)]);
        lemma_find_quote_at(src2, p + 1, p + n - 1);
    } else if is_digit(c) {
        let d1 = digits_end(src1, i1 + 1);
        lemma_digits_end(src1, i1 + 1);
        let k = d1 - i1;
        if d1 < src1.len() && src1[d1] == '.' && d1 + 1 < src1.len() && is_digit(src1[d1 + 1]) {
            let e1 = digits_end(src1, d1 + 1);
            lemma_digits_end(src1, d1 + 1);
            assert(n == e1 - i1);
            assert forall|m: int| p + 1 <= m < p + k implies is_digit(#[trigger] src2[m]) by {
                let j = m - p;
                assert(src2[p + j] == src1[i1 + j]);
            }
            assert(src2[p + k] == src1[i1 + k]);
            lemma_digits_end_at(src2, p + 1, p + k);
            assert(src2[p + (k + 1)] == src1[i1 + (k + 1)]);
            assert forall|m: int| p + k + 1 <= m < p + n implies is_digit(
                #[trigger] src2[m],
            ) by {
                let j = m - p;
                assert(src2[p + j] == src1[i1 + j]);
            }
            assert(p + n == src2.len() || !is_digit(src2[p + n]));
            lemma_digits_end_at(src2, p + k + 1, p + n);
        } else {
            assert(n == k);
            assert forall|m: int| p + 1 <= m < p + n implies is_digit(#[trigger] src2[m]) by {
                let j = m - p;
                assert(src2[p + j] == src1[i1 + j]);
            }
            assert(p + n == src2.len() || !is_digit(src2[p + n]));
            lemma_digits_end_at(src2, p + 1, p + n);
            assert(p + n == src2.len() || src2[p + n] != '.');
        }
    } else if is_alpha(c) {
        let e1 = alnum_end(src1, i1 + 1);
        lemma_alnum_end(src1, i1 + 1);
        assert(n == e1 - i1);
        assert forall|m: int| p + 1 <= m < p + n implies is_alnum(#[trigger] src2[m]) by {
            let j = m - p;
            assert(src2[p + j] == src1[i1 + j]);
        }
        assert(p + n == src2.len() || !is_alnum(src2[p + n]));
        lemma_alnum_end_at(src2, p + 1, p + n);
        assert(src2.subrange(p, p + n) =~= src1.subrange(i1, e1));
    } else {
        assert(false);
    }
}

/// Scanning the joined lexemes of step-made tokens yields the same tag
/// for each of them, and nothing else.
proof fn lemma_rescan_list(src2: Seq<char>, p: int, line: u64, toks: Seq<TokenV>)
    requires
        0 <= p <= src2.len(),
        src2.skip(p) == join_lexemes(toks),
        forall|idx: int| 0 <= idx < toks.len() ==> from_step(#[trigger] toks[idx]),
    ensures
        kinds_of(sp_scan_from(src2, p, line).toks) == kinds_of(toks),
        sp_scan_from(src2, p, line).diags == Seq::<crate::diagnostic::DiagnosticV>::empty(),
    decreases toks.len(),
{
    if toks.len() == 0 {
        assert(src2.skip(p).len() == 0);
        assert(p == src2.len());
        assert(kinds_of(sp_scan_from(src2, p, line).toks) =~= kinds_of(toks));
    } else {
        let t = toks[0];
        assert(from_step(t));
        let (src1, i1, l1): (Seq<char>, int, u64) = choose|src1: Seq<char>, i1: int, l1: u64|
            0 <= i1 < src1.len() && #[trigger] sp_scan_step(src1, i1, l1).token == Some(t);
        lemma_step_lexeme(src1, i1, l1);
        let st1 = sp_scan_step(src1, i1, l1);
        let n = st1.next - i1;
        assert(t.lexeme == src1.subrange(i1, i1 + n));
        assert(t.lexeme.len() == n);
        let rest_join = join_lexemes(toks.drop_first());
        // the joined stream starts with this token's lexeme
        if toks.len() == 1 {
            assert(src2.skip(p) == t.lexeme);
            assert(p + n == src2.len());
            assert forall|j: int| 0 <= j < n implies #[trigger] src2.subrange(p, p + n)[j]
                == t.lexeme[j] by {
                assert(src2.subrange(p, p + n)[j] == src2[p + j]);
                assert(src2[p + j] == src2.skip(p)[j]);
            }
            assert(src2.subrange(p, p + n) =~= t.lexeme);
        } else {
            assert(src2.skip(p) == t.lexeme + seq![' '] + rest_join);
            assert(src2.skip(p).len() == n + 1 + rest_join.len());
            assert(p + n + 1 <= src2.len());
            assert forall|j: int| 0 <= j < n implies #[trigger] src2.subrange(p, p + n)[j]
                == t.lexeme[j] by {
                assert(src2.subrange(p, p + n)[j] == src2[p + j]);
                assert(src2[p + j] == src2.skip(p)[j]);
                assert(src2.skip(p)[j] == (t.lexeme + seq![' '] + rest_join)[j]);
            }
            assert(src2.subrange(p, p + n) =~= t.lexeme);
            assert(src2[p + n] == src2.skip(p)[n]);
            assert(src2.skip(p)[n] == (t.lexeme + seq![' '] + rest_join)[n]);
            assert(src2[p + n] == ' ');
        }
        lemma_step_kind_local(src1, i1, l1, src2, p, line);
        let st2 = sp_scan_step(src2, p, line);
        let tok2 = st2.token->Some_0;
        assert(0 <= p < src2.len());
        let whole = sp_scan_from(src2, p, line);
        if toks.len() == 1 {
            assert(src2.skip(p + n) =~= Seq::<char>::empty());
            assert(src2.skip(p + n) == join_lexemes(toks.drop_first()));
            lemma_rescan_list(src2, p + n, st2.line, toks.drop_first());
            let rest2 = sp_scan_from(src2, p + n, st2.line);
            assert(rest2.toks.len() == 0) by {
                assert(kinds_of(rest2.toks).len() == 0);
            }
            assert(whole.toks =~= seq![tok2]);
            assert(kinds_of(whole.toks) =~= kinds_of(toks));
            assert(whole.diags =~= Seq::<crate::diagnostic::DiagnosticV>::empty());
        } else {
            // the separating space scans to nothing
            let st_sp = sp_scan_step(src2, p + n, st2.line);
            assert(st_sp.token is None && st_sp.diag is None && st_sp.next == p + n + 1);
            assert forall|j: int| 0 <= j < src2.skip(p + n + 1).len() implies #[trigger] src2.skip(
                p + n + 1,
            )[j] == rest_join[j] by {
                assert(src2.skip(p + n + 1)[j] == src2[p + n + 1 + j]);
                assert(src2[p + n + 1 + j] == src2.skip(p)[n + 1 + j]);
                assert(src2.skip(p)[n + 1 + j] == (t.lexeme + seq![' '] + rest_join)[n + 1 + j]);
            }
            assert(src2.skip(p + n + 1) =~= rest_join);
            lemma_rescan_list(src2, p + n + 1, st_sp.line, toks.drop_first());
            let rest2 = sp_scan_from(src2, p + n + 1, st_sp.line);
            let mid = sp_scan_from(src2, p + n, st2.line);
            assert(mid.toks =~= rest2.toks);
            assert(mid.diags =~= rest2.diags);
            assert(whole.toks =~= seq![tok2] + rest2.toks);
            assert(kinds_of(rest2.toks) == kinds_of(toks.drop_first()));
            assert(rest2.toks.len() == toks.len() - 1) by {
                assert(kinds_of(rest2.toks).len() == kinds_of(toks.drop_first()).len());
            }
            assert(whole.toks.len() == toks.len());
            assert forall|idx: int| 0 <= idx < whole.toks.len() implies #[trigger] kinds_of(
                whole.toks,
            )[idx] == kinds_of(toks)[idx] by {
                if idx == 0 {
                    assert(whole.toks[0] == tok2);
                } else {
                    assert(whole.toks[idx] == rest2.toks[idx - 1]);
                    assert(kinds_of(rest2.toks)[idx - 1] == kinds_of(toks.drop_first())[idx - 1]);
                    assert(toks.drop_first()[idx - 1] == toks[idx]);
                }
            }
            assert(kinds_of(whole.toks).len() == kinds_of(toks).len());
            assert(kinds_of(whole.toks) =~= kinds_of(toks));
            assert(whole.diags =~= Seq::<crate::diagnostic::DiagnosticV>::empty());
        }
    }
}

/// Law: re-lexing the reconstructed lexeme stream yields the same
/// token-kind sequence. The lexemes of a scan's tokens, joined by single
/// spaces, scan to tokens of exactly the same tags in the same order,
/// with no diagnostics — on every input, since unscannable input never
/// reaches the token stream.
pub proof fn lemma_lexer_round_trip(src: Seq<char>)
    ensures
        kinds_of(sp_scan(join_lexemes(sp_scan(src).toks.drop_last())).toks) == kinds_of(
            sp_scan(src).toks,
        ),
        sp_scan(join_lexemes(sp_scan(src).toks.drop_last())).diags == Seq::<
            crate::diagnostic::DiagnosticV,
        >::empty(),
{
    let toks = sp_scan_from(src, 0, 1).toks;
    assert(sp_scan(src).toks.drop_last() =~= toks);
    lemma_scan_from_steps(src, 0, 1);
    let src2 = join_lexemes(toks);
    assert(src2.skip(0) =~= src2);
    lemma_rescan_list(src2, 0, 1, toks);
    let second = sp_scan_from(src2, 0, 1);
    assert(kinds_of(sp_scan(src2).toks) =~= kinds_of(second.toks).push(TokenKind::Eof));
    assert(kinds_of(sp_scan(src).toks) =~= kinds_of(toks).push(TokenKind::Eof));
}

} // verus!
