//! Splitting a full name into its space-separated tokens, and joining two
//! tokens back into a full name, with the round-trip laws between the two.

use vstd::prelude::*;

verus! {

/// The tokens of `s`, split on the space character.
///
/// Every space is a separator, so the result always holds one more token
/// than `s` holds spaces; an empty input yields one empty token.
pub open spec fn split_on_space(s: Seq<char>) -> Seq<Seq<char>>
    decreases s.len(),
{
    if s.len() == 0 {
        seq![Seq::<char>::empty()]
    } else if s[0] == ' ' {
        seq![Seq::<char>::empty()] + split_on_space(s.drop_first())
    } else {
        let rest = split_on_space(s.drop_first());
        seq![seq![s[0]] + rest[0]] + rest.drop_first()
    }
}

/// A usable name token: non-empty and free of spaces.
pub open spec fn wf_token(t: Seq<char>) -> bool {
    t.len() > 0 && forall|j: int| 0 <= j < t.len() ==> t[j] != ' '
}

/// The full name formed by the two tokens: first, one space, last.
pub open spec fn join_two(first: Seq<char>, last: Seq<char>) -> Seq<char> {
    first + seq![' '] + last
}

/// Splitting always yields at least one token.
pub proof fn lemma_split_len(s: Seq<char>)
    ensures
        split_on_space(s).len() >= 1,
    decreases s.len(),
{
    if s.len() != 0 {
        lemma_split_len(s.drop_first());
    }
}

/// A text without spaces is a single token.
pub proof fn lemma_split_no_space(t: Seq<char>)
    requires
        forall|j: int| 0 <= j < t.len() ==> t[j] != ' ',
    ensures
        split_on_space(t) == seq![t],
    decreases t.len(),
{
    if t.len() == 0 {
        assert(split_on_space(t) =~~= seq![t]);
    } else {
        lemma_split_no_space(t.drop_first());
        assert(seq![t[0]] + t.drop_first() =~= t);
        assert(split_on_space(t) =~~= seq![t]);
    }
}

/// Splitting peels off everything before the first space as the first
/// token, and splits the remainder on its own.
pub proof fn lemma_split_at_first_space(t: Seq<char>, k: int)
    requires
        0 <= k < t.len(),
        t[k] == ' ',
        forall|j: int| 0 <= j < k ==> t[j] != ' ',
    ensures
        split_on_space(t) == seq![t.take(k)] + split_on_space(t.skip(k + 1)),
    decreases k,
{
    if k == 0 {
        assert(t.take(0) =~= Seq::<char>::empty());
        assert(t.drop_first() =~= t.skip(1));
        assert(split_on_space(t) =~~= seq![t.take(0)] + split_on_space(t.skip(1)));
    } else {
        let u = t.drop_first();
        lemma_split_at_first_space(u, k - 1);
        assert(seq![t[0]] + u.take(k - 1) =~= t.take(k));
        assert(u.skip(k) =~= t.skip(k + 1));
        assert((seq![u.take(k - 1)] + split_on_space(u.skip(k))).drop_first() =~~= split_on_space(
            u.skip(k),
        ));
        assert(split_on_space(t) =~~= seq![t.take(k)] + split_on_space(t.skip(k + 1)));
    }
}

/// A text that splits into a single token is that token.
pub proof fn lemma_split_len_one(s: Seq<char>)
    requires
        split_on_space(s).len() == 1,
    ensures
        split_on_space(s)[0] == s,
    decreases s.len(),
{
    if s.len() == 0 {
        assert(split_on_space(s)[0] =~= s);
    } else if s[0] == ' ' {
        lemma_split_len(s.drop_first());
        assert(false);
    } else {
        lemma_split_len(s.drop_first());
        lemma_split_len_one(s.drop_first());
        assert(split_on_space(s)[0] =~= s);
    }
}

/// Joining the two tokens of a two-token text with a single space
/// reproduces that text exactly: parsing and then formatting loses
/// nothing.
pub proof fn lemma_parse_then_format(s: Seq<char>)
    requires
        split_on_space(s).len() == 2,
    ensures
        join_two(split_on_space(s)[0], split_on_space(s)[1]) == s,
    decreases s.len(),
{
    if s.len() == 0 {
        assert(false);
    } else if s[0] == ' ' {
        lemma_split_len(s.drop_first());
        lemma_split_len_one(s.drop_first());
        assert(join_two(split_on_space(s)[0], split_on_space(s)[1]) =~= s);
    } else {
        let rest = split_on_space(s.drop_first());
        lemma_split_len(s.drop_first());
        assert(rest.len() == 2);
        lemma_parse_then_format(s.drop_first());
        assert(join_two(rest[0], rest[1]) == s.drop_first());
        assert(split_on_space(s)[0] == seq![s[0]] + rest[0]);
        assert(split_on_space(s)[1] == rest[1]);
        assert(join_two(seq![s[0]] + rest[0], rest[1]) =~= seq![s[0]] + join_two(
            rest[0],
            rest[1],
        ));
        assert(seq![s[0]] + s.drop_first() =~= s);
    }
}

/// Formatting two well-formed tokens and splitting the result yields
/// exactly those two tokens back.
pub proof fn lemma_format_then_parse(first: Seq<char>, last: Seq<char>)
    requires
        wf_token(first),
        wf_token(last),
    ensures
        split_on_space(join_two(first, last)) == seq![first, last],
{
    let s = join_two(first, last);
    assert(s[first.len() as int] == ' ');
    lemma_split_at_first_space(s, first.len() as int);
    lemma_split_no_space(last);
    assert(s.take(first.len() as int) =~= first);
    assert(s.skip(first.len() as int + 1) =~= last);
    assert(split_on_space(s) =~~= seq![first, last]);
}

/// Splits `name` on the space character into its tokens.
pub fn split_tokens(name: &str) -> (tokens: Vec<String>)
    ensures
        tokens.deep_view() == split_on_space(name@),
{
    let len = name.unicode_len();
    let mut tokens: Vec<String> = Vec::new();
    let mut start: usize = 0;
    let mut i: usize = 0;
    proof {
        assert(name@.skip(0) =~= name@);
        assert(tokens.deep_view() =~~= Seq::<Seq<char>>::empty());
        assert(Seq::<Seq<char>>::empty() + split_on_space(name@) =~~= split_on_space(name@));
    }
    while i < len
        invariant
            start <= i <= len,
            len == name@.len(),
            forall|j: int| start <= j < i ==> name@[j] != ' ',
            tokens.deep_view() + split_on_space(name@.skip(start as int)) == split_on_space(
                name@,
            ),
        decreases len - i,
    {
        if name.get_char(i) == ' ' {
            let token = name.substring_char(start, i);
            let ghost pre = tokens.deep_view();
            tokens.push(token.to_owned());
            proof {
                let u = name@.skip(start as int);
                lemma_split_at_first_space(u, i - start);
                assert(u.take(i - start) =~= token@);
                assert(u.skip(i - start + 1) =~= name@.skip(i + 1));
                assert(tokens.deep_view() =~~= pre.push(token@));
                assert(pre.push(token@) + split_on_space(name@.skip(i + 1)) =~~= pre
                    + split_on_space(u));
            }
            start = i + 1;
        }
        i = i + 1;
    }
    let token = name.substring_char(start, len);
    let ghost pre = tokens.deep_view();
    tokens.push(token.to_owned());
    proof {
        let u = name@.skip(start as int);
        lemma_split_no_space(u);
        assert(u =~= token@);
        assert(tokens.deep_view() =~~= pre.push(token@));
        assert(pre.push(token@) =~~= pre + split_on_space(u));
    }
    tokens
}

} // verus!
