//! Filling the placeholders of a text in one pass from the left.

use vstd::prelude::*;

verus! {

/// Whether a `{}` stands at the start of `s`.
pub open spec fn starts_with_placeholder(s: Seq<char>) -> bool {
    s.len() >= 2 && s[0] == '{' && s[1] == '}'
}

/// The number of `{}` in `s`, counted from the left without overlap.
pub open spec fn count_placeholders(s: Seq<char>) -> nat
    decreases s.len(),
{
    if s.len() == 0 {
        0
    } else if starts_with_placeholder(s) {
        1 + count_placeholders(s.skip(2))
    } else {
        count_placeholders(s.drop_first())
    }
}

/// `s` with its `{}` replaced in one pass from the left: the first by the first of `texts`,
/// the second by the second, and so on while there are texts left. Everything else stays,
/// a `{}` for which no text is left too, and what was put in is not looked at again.
pub open spec fn spliced(s: Seq<char>, texts: Seq<Seq<char>>) -> Seq<char>
    decreases s.len(),
{
    if s.len() == 0 {
        Seq::empty()
    } else if texts.len() > 0 && starts_with_placeholder(s) {
        texts[0] + spliced(s.skip(2), texts.drop_first())
    } else {
        seq![s[0]] + spliced(s.drop_first(), texts)
    }
}

/// The texts of `texts` as sequences of characters.
pub open spec fn texts_model(texts: Seq<Vec<char>>) -> Seq<Seq<char>> {
    Seq::new(texts.len(), |i: int| texts[i]@)
}

/// The lengths of the first `n` of `texts`, added up.
pub open spec fn total_length(texts: Seq<Seq<char>>, n: int) -> int
    decreases n,
{
    if n <= 0 || n > texts.len() {
        0
    } else {
        total_length(texts, n - 1) + texts[n - 1].len()
    }
}

/// The smaller of two numbers.
pub open spec fn smaller(a: int, b: int) -> int {
    if a < b {
        a
    } else {
        b
    }
}

/// `template` with its `{}` replaced by `texts`, in one pass from the left.
pub fn splice(template: &Vec<char>, texts: &Vec<Vec<char>>) -> (r: Vec<char>)
    ensures
        r@ == spliced(template@, texts_model(texts@)),
{
    let ghost whole = template@;
    let ghost all = texts_model(texts@);
    let mut out: Vec<char> = Vec::new();
    let mut i: usize = 0;
    let mut k: usize = 0;
    assert(whole.skip(0) =~= whole);
    assert(all.skip(0) =~= all);
    assert(out@ + spliced(whole, all) =~= spliced(whole, all));
    while i < template.len()
        invariant
            i <= template.len(),
            k <= texts.len(),
            whole == template@,
            all == texts_model(texts@),
            out@ + spliced(whole.skip(i as int), all.skip(k as int)) == spliced(whole, all),
        decreases template.len() - i,
    {
        let ghost rest = whole.skip(i as int);
        let ghost left = all.skip(k as int);
        let ghost before = out@;
        if k < texts.len() && i + 1 < template.len() && template[i] == '{' && template[i + 1] == '}' {
            let mut j: usize = 0;
            while j < texts[k].len()
                invariant
                    j <= texts[k as int].len(),
                    k < texts.len(),
                    out@ == before + texts[k as int]@.take(j as int),
                decreases texts[k as int].len() - j,
            {
                out.push(texts[k][j]);
                j += 1;
                assert(out@ =~= before + texts[k as int]@.take(j as int));
            }
            proof {
                assert(texts[k as int]@.take(j as int) =~= texts[k as int]@);
                assert(left[0] == texts[k as int]@);
                assert(rest.skip(2) =~= whole.skip(i + 2));
                assert(left.drop_first() =~= all.skip(k + 1));
                assert(out@ + spliced(whole.skip(i + 2), all.skip(k + 1)) =~= before + spliced(
                    rest,
                    left,
                ));
            }
            i += 2;
            k += 1;
        } else {
            out.push(template[i]);
            proof {
                assert(rest.drop_first() =~= whole.skip(i + 1));
                assert(!(left.len() > 0 && starts_with_placeholder(rest)));
                assert(out@ + spliced(whole.skip(i + 1), left) =~= before + spliced(rest, left));
            }
            i += 1;
        }
    }
    assert(out@ + Seq::<char>::empty() =~= out@);
    out
}

/// Without texts nothing is replaced.
pub proof fn law_nothing_to_fill_with(s: Seq<char>)
    ensures
        spliced(s, Seq::empty()) == s,
    decreases s.len(),
{
    if s.len() > 0 {
        law_nothing_to_fill_with(s.drop_first());
        assert(seq![s[0]] + s.drop_first() =~= s);
    }
}

/// The texts beyond the number of placeholders are dropped: filling with all the texts
/// gives what filling with the first of them gives, as many as `s` has placeholders.
pub proof fn law_texts_beyond_are_dropped(s: Seq<char>, texts: Seq<Seq<char>>)
    ensures
        spliced(s, texts) == spliced(
            s,
            texts.take(smaller(count_placeholders(s) as int, texts.len() as int)),
        ),
    decreases s.len(),
{
    let m = smaller(count_placeholders(s) as int, texts.len() as int);
    if s.len() > 0 {
        if texts.len() > 0 && starts_with_placeholder(s) {
            law_texts_beyond_are_dropped(s.skip(2), texts.drop_first());
            let inner = smaller(count_placeholders(s.skip(2)) as int, texts.len() - 1);
            assert(texts.take(m).drop_first() =~= texts.drop_first().take(inner));
            assert(texts.take(m)[0] == texts[0]);
        } else {
            law_texts_beyond_are_dropped(s.drop_first(), texts);
            if texts.len() == 0 {
                assert(texts.take(m) =~= texts);
            }
        }
    }
}

/// Exactly as many placeholders are replaced as `s` has, or as there are texts, whichever
/// is less: each of them, two characters long, gives way to the text at its place, and
/// nothing else changes the length.
pub proof fn law_filled_length(s: Seq<char>, texts: Seq<Seq<char>>)
    ensures
        spliced(s, texts).len() == s.len() - 2 * smaller(
            count_placeholders(s) as int,
            texts.len() as int,
        ) + total_length(texts, smaller(count_placeholders(s) as int, texts.len() as int)),
    decreases s.len(),
{
    if s.len() > 0 {
        if texts.len() > 0 && starts_with_placeholder(s) {
            let rest = texts.drop_first();
            law_filled_length(s.skip(2), rest);
            let inner = smaller(count_placeholders(s.skip(2)) as int, rest.len() as int);
            lemma_total_length_shifts(texts, inner);
        } else {
            law_filled_length(s.drop_first(), texts);
        }
    }
}

proof fn lemma_total_length_shifts(texts: Seq<Seq<char>>, n: int)
    requires
        texts.len() > 0,
        0 <= n <= texts.len() - 1,
    ensures
        total_length(texts, n + 1) == texts[0].len() + total_length(texts.drop_first(), n),
    decreases n,
{
    let rest = texts.drop_first();
    if n > 0 {
        lemma_total_length_shifts(texts, n - 1);
        assert(rest[n - 1] == texts[n]);
        assert(total_length(texts, n + 1) == total_length(texts, n) + texts[n].len());
        assert(total_length(rest, n) == total_length(rest, n - 1) + rest[n - 1].len());
    } else {
        assert(total_length(texts, 0) == 0);
        assert(total_length(texts, 1) == total_length(texts, 0) + texts[0].len());
        assert(total_length(rest, 0) == 0);
    }
}

/// A text that holds a placeholder keeps what stands before it, takes the first text in
/// its place, and is filled with the other texts behind it.
pub proof fn law_first_placeholder_takes_first_text(
    before: Seq<char>,
    after: Seq<char>,
    texts: Seq<Seq<char>>,
)
    requires
        count_placeholders(before) == 0,
        before.len() == 0 || before.last() != '{',
        texts.len() > 0,
    ensures
        spliced(before + seq!['{', '}'] + after, texts) == before + texts[0] + spliced(
            after,
            texts.drop_first(),
        ),
    decreases before.len(),
{
    let s = before + seq!['{', '}'] + after;
    if before.len() == 0 {
        assert(s.skip(2) =~= after);
        assert(s =~= seq!['{', '}'] + after);
        assert(before + texts[0] + spliced(after, texts.drop_first()) =~= texts[0] + spliced(
            after,
            texts.drop_first(),
        ));
    } else {
        let tail = before.drop_first();
        assert(s.drop_first() =~= tail + seq!['{', '}'] + after);
        assert(s[0] == before[0]);
        if before.len() >= 2 {
            assert(s[1] == before[1]);
        } else {
            assert(s[1] == '{');
        }
        assert(!starts_with_placeholder(before)) by {
            if starts_with_placeholder(before) {
                assert(count_placeholders(before) >= 1);
            }
        }
        assert(!starts_with_placeholder(s));
        assert(count_placeholders(tail) == 0);
        if tail.len() > 0 {
            assert(tail.last() == before.last());
        }
        law_first_placeholder_takes_first_text(tail, after, texts);
        assert(seq![before[0]] + (tail + texts[0] + spliced(after, texts.drop_first())) =~= before
            + texts[0] + spliced(after, texts.drop_first()));
    }
}

} // verus!
