//! Derivation of a broker topic name from an event's target.
use vstd::prelude::*;
use vstd::string::*;

verus! {

/// `s` with every `_` removed.
pub open spec fn without_underscores(s: Seq<char>) -> Seq<char>
    decreases s.len(),
{
    if s.len() == 0 {
        Seq::empty()
    } else if s.last() == '_' {
        without_underscores(s.drop_last())
    } else {
        without_underscores(s.drop_last()).push(s.last())
    }
}

/// `s` with each `::`, taken from left to right without overlap, replaced by `-`.
pub open spec fn with_dashes(s: Seq<char>) -> Seq<char>
    decreases s.len(),
{
    if s.len() == 0 {
        Seq::empty()
    } else if s.len() >= 2 && s[0] == ':' && s[1] == ':' {
        seq!['-'] + with_dashes(s.subrange(2, s.len() as int))
    } else {
        seq![s[0]] + with_dashes(s.subrange(1, s.len() as int))
    }
}

/// The topic that events of target `s` are published to.
pub open spec fn topic_of(s: Seq<char>) -> Seq<char> {
    with_dashes(without_underscores(s))
}

pub open spec fn has_no_underscore(s: Seq<char>) -> bool {
    forall|i: int| 0 <= i < s.len() ==> s[i] != '_'
}

pub open spec fn has_no_double_colon(s: Seq<char>) -> bool {
    forall|i: int| 0 <= i < s.len() - 1 ==> !(#[trigger] s[i] == ':' && s[i + 1] == ':')
}

proof fn lemma_without_underscores_clean(s: Seq<char>)
    ensures
        has_no_underscore(without_underscores(s)),
        has_no_underscore(s) ==> without_underscores(s) == s,
    decreases s.len(),
{
    if s.len() > 0 {
        lemma_without_underscores_clean(s.drop_last());
        if has_no_underscore(s) {
            assert(has_no_underscore(s.drop_last()));
            assert(s.drop_last().push(s.last()) =~= s);
        }
    }
}

proof fn lemma_with_dashes_first(s: Seq<char>)
    ensures
        with_dashes(s).len() > 0 && with_dashes(s)[0] == ':' ==> s.len() > 0 && s[0] == ':'
            && !(s.len() >= 2 && s[1] == ':'),
    decreases s.len(),
{
}

proof fn lemma_with_dashes_clean(s: Seq<char>)
    ensures
        has_no_double_colon(with_dashes(s)),
        has_no_underscore(s) ==> has_no_underscore(with_dashes(s)),
        has_no_double_colon(s) ==> with_dashes(s) == s,
    decreases s.len(),
{
    if s.len() > 0 {
        if s.len() >= 2 && s[0] == ':' && s[1] == ':' {
            let rest = s.subrange(2, s.len() as int);
            lemma_with_dashes_clean(rest);
            let r = with_dashes(s);
            assert(r == seq!['-'] + with_dashes(rest));
            assert forall|i: int| 0 <= i < r.len() - 1 implies !(#[trigger] r[i] == ':' && r[i + 1] == ':') by {
                if i > 0 {
                    assert(r[i] == with_dashes(rest)[i - 1]);
                    assert(r[i + 1] == with_dashes(rest)[i]);
                }
            }
            if has_no_underscore(s) {
                assert(has_no_underscore(rest));
                assert forall|i: int| 0 <= i < r.len() implies r[i] != '_' by {
                    if i > 0 {
                        assert(r[i] == with_dashes(rest)[i - 1]);
                    }
                }
            }
        } else {
            let rest = s.subrange(1, s.len() as int);
            lemma_with_dashes_clean(rest);
            lemma_with_dashes_first(rest);
            let r = with_dashes(s);
            assert(r == seq![s[0]] + with_dashes(rest));
            assert forall|i: int| 0 <= i < r.len() - 1 implies !(#[trigger] r[i] == ':' && r[i + 1] == ':') by {
                if i > 0 {
                    assert(r[i] == with_dashes(rest)[i - 1]);
                    assert(r[i + 1] == with_dashes(rest)[i]);
                } else {
                    assert(r[1] == with_dashes(rest)[0]);
                }
            }
            if has_no_underscore(s) {
                assert(has_no_underscore(rest));
                assert forall|i: int| 0 <= i < r.len() implies r[i] != '_' by {
                    if i > 0 {
                        assert(r[i] == with_dashes(rest)[i - 1]);
                    }
                }
            }
            if has_no_double_colon(s) {
                assert(has_no_double_colon(rest));
                assert(seq![s[0]] + rest =~= s);
            }
        }
    }
}

/// A derived topic holds no `_` and no `::`, whatever the target.
pub proof fn lemma_topic_is_clean(s: Seq<char>)
    ensures
        has_no_underscore(topic_of(s)),
        has_no_double_colon(topic_of(s)),
{
    lemma_without_underscores_clean(s);
    lemma_with_dashes_clean(without_underscores(s));
}

/// A target that holds no `_` and no `::` is its own topic.
pub proof fn lemma_clean_target_is_its_topic(s: Seq<char>)
    requires
        has_no_underscore(s),
        has_no_double_colon(s),
    ensures
        topic_of(s) == s,
{
    lemma_without_underscores_clean(s);
    lemma_with_dashes_clean(s);
}

/// Deriving the topic of a topic changes nothing.
pub proof fn lemma_topic_idempotent(s: Seq<char>)
    ensures
        topic_of(topic_of(s)) == topic_of(s),
{
    lemma_topic_is_clean(s);
    lemma_clean_target_is_its_topic(topic_of(s));
}

/// Copies `input` without its underscores.
fn remove_underscores(input: &str) -> (r: String)
    ensures
        r@ == without_underscores(input@),
{
    let n = input.unicode_len();
    let mut out = String::new();
    let mut i: usize = 0;
    while i < n
        invariant
            n == input@.len(),
            i <= n,
            out@ == without_underscores(input@.subrange(0, i as int)),
        decreases n - i,
    {
        let c = input.get_char(i);
        assert(input@.subrange(0, i + 1).drop_last() =~= input@.subrange(0, i as int));
        if c != '_' {
            let one = input.substring_char(i, i + 1);
            out.append(one);
            assert(one@ =~= seq![c]);
            assert(out@ =~= without_underscores(input@.subrange(0, i + 1)));
        }
        i = i + 1;
    }
    assert(input@.subrange(0, n as int) =~= input@);
    out
}

/// Copies `input` with each `::` replaced by `-`.
fn replace_double_colons(input: &str) -> (r: String)
    ensures
        r@ == with_dashes(input@),
{
    let n = input.unicode_len();
    let mut out = String::new();
    let mut i: usize = 0;
    assert(input@.subrange(0, n as int) =~= input@);
    while i < n
        invariant
            n == input@.len(),
            i <= n,
            out@ + with_dashes(input@.subrange(i as int, n as int)) == with_dashes(input@),
        decreases n - i,
    {
        let rest = Ghost(input@.subrange(i as int, n as int));
        let c = input.get_char(i);
        if c == ':' && i + 1 < n && input.get_char(i + 1) == ':' {
            assert(rest@.subrange(2, rest@.len() as int) =~= input@.subrange(i + 2, n as int));
            out.append("-");
            proof {
                reveal_strlit("-");
            }
            assert(out@ + with_dashes(input@.subrange(i + 2, n as int)) =~= with_dashes(input@));
            i = i + 2;
        } else {
            assert(rest@.subrange(1, rest@.len() as int) =~= input@.subrange(i + 1, n as int));
            let one = input.substring_char(i, i + 1);
            out.append(one);
            assert(one@ =~= seq![c]);
            assert(out@ + with_dashes(input@.subrange(i + 1, n as int)) =~= with_dashes(input@));
            i = i + 1;
        }
    }
    assert(input@.subrange(n as int, n as int) =~= Seq::<char>::empty());
    assert(out@ + Seq::<char>::empty() =~= out@);
    out
}

/// The broker topic for events of target `input`: every `_` is removed, then
/// each `::` becomes `-`.
pub fn topic_name(input: &str) -> (r: String)
    ensures
        r@ == topic_of(input@),
{
    let stripped = remove_underscores(input);
    replace_double_colons(stripped.as_str())
}

} // verus!
