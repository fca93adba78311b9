//! Kernel command lines.
//!
//! A command line is made of parameters between white space. White space in double quotes does not
//! end a parameter; a quote that is never closed reaches to the end of the line.

use vstd::prelude::*;

use crate::text::{lacks, texts, Class};

verus! {

/// Whether every quote of a text is closed.
pub open spec fn is_closed(s: Seq<char>) -> bool
    decreases s.len(),
{
    s.len() == 0 || is_closed(s.drop_last()) == (s.last() != '"')
}

/// Whether a text ends in white space that stands in no quotes.
pub open spec fn ends_in_gap(s: Seq<char>) -> bool {
    s.len() > 0 && Class::AsciiWhite.has(s.last()) && is_closed(s.drop_last())
}

/// The parameters of a command line: what stands between the white space that is in no quotes, in
/// order.
pub open spec fn params(s: Seq<char>) -> Seq<Seq<char>>
    decreases s.len(),
{
    if s.len() == 0 {
        seq![]
    } else {
        let before = params(s.drop_last());
        let c = s.last();
        if ends_in_gap(s) {
            before
        } else if s.len() == 1 || ends_in_gap(s.drop_last()) {
            before.push(seq![c])
        } else {
            before.drop_last().push(before.last().push(c))
        }
    }
}

/// Whether a text is one parameter.
pub open spec fn is_param(p: Seq<char>) -> bool {
    params(p) == seq![p]
}

/// A text without the quote that it begins with.
pub open spec fn without_first_quote(s: Seq<char>) -> Seq<char> {
    if s.len() > 0 && s[0] == '"' {
        s.skip(1)
    } else {
        s
    }
}

/// A text without the quote that it ends with.
pub open spec fn without_last_quote(s: Seq<char>) -> Seq<char> {
    if s.len() > 0 && s.last() == '"' {
        s.drop_last()
    } else {
        s
    }
}

/// How many characters stand before the first equals sign.
pub open spec fn key_len(s: Seq<char>) -> nat
    decreases s.len(),
{
    if s.len() == 0 || s[0] == '=' {
        0
    } else {
        1 + key_len(s.skip(1))
    }
}

/// The key of a parameter: what stands before the first equals sign, with underscores for dashes.
pub open spec fn param_key(p: Seq<char>) -> Seq<char> {
    let bare = without_last_quote(without_first_quote(p));
    Seq::new(
        key_len(bare),
        |i: int|
            if bare[i] == '-' {
                '_'
            } else {
                bare[i]
            },
    )
}

/// The value of a parameter: what stands behind the first equals sign, if there is one.
pub open spec fn param_value(p: Seq<char>) -> Option<Seq<char>> {
    let bare = without_last_quote(without_first_quote(p));
    if key_len(bare) < bare.len() {
        Some(without_first_quote(bare.skip(key_len(bare) as int + 1)))
    } else {
        None
    }
}

/// Whether two parameters are the same.
pub open spec fn same_param(a: Seq<char>, b: Seq<char>) -> bool {
    param_key(a) == param_key(b) && param_value(a) == param_value(b)
}

/// Whether a command line has a parameter.
pub open spec fn has_param(s: Seq<char>, p: Seq<char>) -> bool {
    exists|i: int| 0 <= i < params(s).len() && same_param(#[trigger] params(s)[i], p)
}

/// A command line that can be added to: one that does not end in white space gets a space.
pub open spec fn spaced(s: Seq<char>) -> Seq<char> {
    if s.len() == 0 || Class::AsciiWhite.has(s.last()) {
        s
    } else {
        s.push(' ')
    }
}

/// A command line with a parameter: it is added at the end if it is not there yet.
pub open spec fn with_param(s: Seq<char>, p: Seq<char>) -> Seq<char> {
    if has_param(s, p) {
        s
    } else {
        spaced(s) + p
    }
}

/// A command line with parameters, which are added in turn.
pub open spec fn with_params(s: Seq<char>, list: Seq<Seq<char>>) -> Seq<char>
    decreases list.len(),
{
    if list.len() == 0 {
        s
    } else {
        with_param(with_params(s, list.drop_last()), list.last())
    }
}

/// The parameters of texts, in their order.
pub open spec fn params_of(list: Seq<Seq<char>>) -> Seq<Seq<char>>
    decreases list.len(),
{
    if list.len() == 0 {
        seq![]
    } else {
        params_of(list.drop_last()) + params(list.last())
    }
}

/// Calls `extend` on a `Cmdline` of `linux_kernel_cmdline`: each parameter of `other` that is not
/// there yet is added behind what is there, with a space between where that does not end in white
/// space. Parameters end at ASCII white space outside of double quotes. Two are the same if their
/// values are and their keys are but for dashes and underscores; a quote at either end, and one
/// that a value begins with, does not count.
#[verifier::external_body]
pub(crate) fn extend_cmdline(base: &str, other: &str) -> (r: String)
    ensures
        r@ == with_params(base@, params(other@)),
{
    let mut cmdline = linux_kernel_cmdline::utf8::Cmdline::from(base);
    cmdline.extend(&linux_kernel_cmdline::utf8::Cmdline::from(other));
    cmdline.to_string()
}

/// A command line extended by the parameters of each of a list, in turn. What was there stays in
/// front.
pub fn build_cmdline(base: &str, kargs: &Vec<String>) -> (r: String)
    ensures
        r@ == with_params(base@, params_of(texts(kargs@))),
        base@.is_prefix_of(r@),
{
    let mut cmdline = base.to_string();
    let mut i: usize = 0;
    let ghost all = texts(kargs@);
    assert(all.take(0) =~= seq![]);
    while i < kargs.len()
        invariant
            i <= kargs@.len(),
            all == texts(kargs@),
            cmdline@ == with_params(base@, params_of(all.take(i as int))),
        decreases kargs@.len() - i,
    {
        assert(all.take(i + 1).drop_last() =~= all.take(i as int));
        assert(all.take(i + 1).last() == kargs@[i as int]@);
        cmdline = extend_cmdline(cmdline.as_str(), kargs[i].as_str());
        proof {
            lemma_with_params_add(
                base@,
                params_of(all.take(i as int)),
                params(kargs@[i as int]@),
            );
        }
        i = i + 1;
    }
    assert(all.take(i as int) =~= all);
    proof {
        law_command_line_stays_in_front(base@, params_of(all));
    }
    cmdline
}

// ---------------------------------------------------------------------------
// Laws
// ---------------------------------------------------------------------------

/// Quotes that are closed in two texts are closed in both in a row.
proof fn lemma_closed_add(a: Seq<char>, b: Seq<char>)
    ensures
        is_closed(a + b) == (is_closed(a) == is_closed(b)),
    decreases b.len(),
{
    if b.len() == 0 {
        assert(a + b =~= a);
    } else {
        lemma_closed_add(a, b.drop_last());
        assert((a + b).drop_last() =~= a + b.drop_last());
        assert((a + b).last() == b.last());
    }
}

/// A text that does not end between parameters has one.
proof fn lemma_has_params(s: Seq<char>)
    requires
        s.len() > 0,
        !ends_in_gap(s),
    ensures
        params(s).len() > 0,
{
}

/// What stands behind white space has its own parameters.
proof fn lemma_params_add(s: Seq<char>, t: Seq<char>)
    requires
        s.len() == 0 || ends_in_gap(s),
    ensures
        params(s + t) == params(s) + params(t),
    decreases t.len(),
{
    if t.len() == 0 {
        assert(s + t =~= s);
        assert(params(s) + params(t) =~= params(s));
    } else {
        let head = t.drop_last();
        let whole = s + t;
        lemma_params_add(s, head);
        assert(whole.drop_last() =~= s + head);
        assert(whole.last() == t.last());
        lemma_closed_add(s, head);
        assert(ends_in_gap(whole) == ends_in_gap(t));
        if t.len() == 1 {
            assert(s + head =~= s);
            assert(params(whole) =~= params(s) + params(t));
        } else {
            assert((s + head).last() == head.last());
            assert((s + head).drop_last() =~= s + head.drop_last());
            lemma_closed_add(s, head.drop_last());
            assert(ends_in_gap(s + head) == ends_in_gap(head));
            if !ends_in_gap(head) {
                lemma_has_params(head);
            }
            assert(params(whole) =~= params(s) + params(t));
        }
    }
}

/// A space behind closed quotes changes no parameter.
proof fn lemma_spaced(s: Seq<char>)
    requires
        is_closed(s),
    ensures
        is_closed(spaced(s)),
        spaced(s).len() == 0 || ends_in_gap(spaced(s)),
        params(spaced(s)) == params(s),
{
    assert(s.push(' ').drop_last() =~= s);
}

/// A text that is not empty and holds no white space is one parameter.
pub proof fn lemma_unspaced_is_param(p: Seq<char>)
    requires
        p.len() > 0,
        forall|i: int| 0 <= i < p.len() ==> !Class::AsciiWhite.has(#[trigger] p[i]),
    ensures
        is_param(p),
    decreases p.len(),
{
    assert(!Class::AsciiWhite.has(p[p.len() - 1]));
    if p.len() == 1 {
        assert(params(p.drop_last()) =~= seq![]);
        assert(params(p) =~= seq![p]) by {
            assert(seq![p.last()] =~= p);
        }
    } else {
        let head = p.drop_last();
        assert forall|i: int| 0 <= i < head.len() implies !Class::AsciiWhite.has(
            #[trigger] head[i],
        ) by {
            assert(head[i] == p[i]);
        }
        lemma_unspaced_is_param(head);
        assert(!Class::AsciiWhite.has(head[head.len() - 1]));
        assert(head.push(p.last()) =~= p);
        assert(params(p) =~= seq![p]);
    }
}

/// The parameters of parameters are they themselves.
pub proof fn lemma_params_are_their_own(list: Seq<Seq<char>>)
    requires
        forall|i: int| 0 <= i < list.len() ==> is_param(#[trigger] list[i]),
    ensures
        params_of(list) == list,
    decreases list.len(),
{
    if list.len() > 0 {
        let head = list.drop_last();
        assert forall|i: int| 0 <= i < head.len() implies is_param(#[trigger] head[i]) by {
            assert(head[i] == list[i]);
        }
        lemma_params_are_their_own(head);
        assert(is_param(list[list.len() - 1]));
    }
    assert(params_of(list) =~= list);
}

/// The parameters of two lists in a row.
pub proof fn lemma_params_of_add(a: Seq<Seq<char>>, b: Seq<Seq<char>>)
    ensures
        params_of(a + b) == params_of(a) + params_of(b),
    decreases b.len(),
{
    if b.len() == 0 {
        assert(a + b =~= a);
    } else {
        lemma_params_of_add(a, b.drop_last());
        assert((a + b).drop_last() =~= a + b.drop_last());
        assert((a + b).last() == b.last());
    }
    assert(params_of(a + b) =~= params_of(a) + params_of(b));
}

/// Whether what is known of the last of the parameters of a text fits how the text ends.
spec fn parts_fit(s: Seq<char>) -> bool {
    let list = params(s);
    &&& forall|i: int| 0 <= i < list.len() ==> is_param(#[trigger] list[i])
    &&& forall|i: int| 0 <= i < list.len() - 1 ==> is_closed(#[trigger] list[i])
    &&& list.len() > 0 ==> is_closed(list.last()) == is_closed(s)
    &&& list.len() == 0 || ends_in_gap(s) ==> is_closed(s)
    &&& list.len() > 0 && !ends_in_gap(s) ==> !ends_in_gap(list.last())
}

/// Each parameter of a text is one by itself, and all but the last are closed.
proof fn lemma_parts_fit(s: Seq<char>)
    ensures
        parts_fit(s),
    decreases s.len(),
{
    if s.len() > 0 {
        let rest = s.drop_last();
        let before = params(rest);
        let list = params(s);
        let c = s.last();
        lemma_parts_fit(rest);
        if ends_in_gap(s) {
        } else if s.len() == 1 || ends_in_gap(rest) {
            let word = seq![c];
            assert(word.drop_last() =~= seq![]);
            assert(params(word.drop_last()) =~= seq![]);
            assert(is_closed(rest));
            assert(word.last() == c);
            assert(is_closed(word.drop_last()));
            assert(is_closed(word) == (c != '"'));
            assert(params(word) =~= seq![word]);
            assert forall|i: int| 0 <= i < list.len() implies is_param(#[trigger] list[i]) by {
                if i < before.len() {
                    assert(list[i] == before[i]);
                }
            }
            assert forall|i: int| 0 <= i < list.len() - 1 implies is_closed(#[trigger] list[i]) by {
                assert(list[i] == before[i]);
                if i == before.len() - 1 {
                    assert(before[i] == before.last());
                }
            }
        } else {
            lemma_has_params(rest);
            let old = before.last();
            assert(is_param(before[before.len() - 1]));
            let word = old.push(c);
            assert(word.drop_last() =~= old);
            assert(params(word) =~= seq![word]);
            assert forall|i: int| 0 <= i < list.len() implies is_param(#[trigger] list[i]) by {
                if i < before.len() - 1 {
                    assert(list[i] == before[i]);
                }
            }
            assert forall|i: int| 0 <= i < list.len() - 1 implies is_closed(#[trigger] list[i]) by {
                assert(list[i] == before[i]);
            }
        }
    }
}

/// Each parameter of a command line is one by itself, and the quotes of all but the last are closed;
/// those of the last are if the command line's are.
pub proof fn law_params_are_params(s: Seq<char>, i: int)
    requires
        0 <= i < params(s).len(),
    ensures
        is_param(params(s)[i]),
        i < params(s).len() - 1 || is_closed(s) ==> is_closed(params(s)[i]),
{
    lemma_parts_fit(s);
    assert(is_param(params(s)[i]));
}

/// What texts hold are parameters, and their quotes are closed if those of the texts are.
pub proof fn lemma_params_of_are_params(list: Seq<Seq<char>>)
    ensures
        forall|i: int| 0 <= i < params_of(list).len() ==> is_param(#[trigger] params_of(list)[i]),
        (forall|i: int| 0 <= i < list.len() ==> is_closed(#[trigger] list[i])) ==> (forall|i: int|
            0 <= i < params_of(list).len() ==> is_closed(#[trigger] params_of(list)[i])),
    decreases list.len(),
{
    if list.len() > 0 {
        let head = list.drop_last();
        lemma_params_of_are_params(head);
        let closed = forall|i: int| 0 <= i < list.len() ==> is_closed(#[trigger] list[i]);
        if closed {
            assert(is_closed(list[list.len() - 1]));
            assert forall|i: int| 0 <= i < head.len() implies is_closed(#[trigger] head[i]) by {
                assert(head[i] == list[i]);
            }
        }
        assert forall|i: int| 0 <= i < params_of(list).len() implies is_param(
            #[trigger] params_of(list)[i],
        ) && (closed ==> is_closed(params_of(list)[i])) by {
            if i < params_of(head).len() {
                assert(params_of(list)[i] == params_of(head)[i]);
            } else {
                law_params_are_params(list.last(), i - params_of(head).len());
            }
        }
    }
}

/// Parameters that are added in two goes.
proof fn lemma_with_params_add(s: Seq<char>, a: Seq<Seq<char>>, b: Seq<Seq<char>>)
    ensures
        with_params(s, a + b) == with_params(with_params(s, a), b),
    decreases b.len(),
{
    if b.len() == 0 {
        assert(a + b =~= a);
    } else {
        lemma_with_params_add(s, a, b.drop_last());
        assert((a + b).drop_last() =~= a + b.drop_last());
        assert((a + b).last() == b.last());
    }
}

/// What a command line becomes: itself, or something behind a space.
spec fn grows(s: Seq<char>, r: Seq<char>) -> bool {
    r == s || spaced(s).is_prefix_of(r)
}

/// Whatever is added stands behind what is there.
proof fn lemma_grows(s: Seq<char>, list: Seq<Seq<char>>)
    ensures
        grows(s, with_params(s, list)),
    decreases list.len(),
{
    if list.len() > 0 {
        let before = with_params(s, list.drop_last());
        let after = with_params(s, list);
        lemma_grows(s, list.drop_last());
        if after != before && before != s {
            assert(spaced(s) =~= before.subrange(0, spaced(s).len() as int));
            assert(spaced(s) =~= after.subrange(0, spaced(s).len() as int));
        } else if after != before {
            assert(spaced(s) =~= after.subrange(0, spaced(s).len() as int));
        }
    }
}

/// What was on a command line stays in front, whatever is added.
pub proof fn law_command_line_stays_in_front(s: Seq<char>, list: Seq<Seq<char>>)
    ensures
        s.is_prefix_of(with_params(s, list)),
{
    let r = with_params(s, list);
    lemma_grows(s, list);
    if r != s {
        assert(spaced(s) =~= r.subrange(0, spaced(s).len() as int));
    }
    assert(s =~= r.subrange(0, s.len() as int));
}

/// The parameters of a command line whose quotes are closed stay in front, in their order, whatever
/// is added.
pub proof fn law_params_stay_in_front(s: Seq<char>, list: Seq<Seq<char>>)
    requires
        is_closed(s),
    ensures
        params(s).is_prefix_of(params(with_params(s, list))),
{
    let r = with_params(s, list);
    lemma_grows(s, list);
    if r != s {
        let head = spaced(s);
        let tail = r.skip(head.len() as int);
        assert(head =~= r.subrange(0, head.len() as int));
        assert(r =~= head + tail);
        lemma_spaced(s);
        lemma_params_add(head, tail);
    }
    assert(params(s) =~= params(r).subrange(0, params(s).len() as int));
}

/// Parameters whose quotes are closed keep those of a command line closed.
proof fn lemma_stays_closed(s: Seq<char>, list: Seq<Seq<char>>)
    requires
        is_closed(s),
        forall|i: int| 0 <= i < list.len() ==> is_closed(#[trigger] list[i]),
    ensures
        is_closed(with_params(s, list)),
    decreases list.len(),
{
    if list.len() > 0 {
        let head = list.drop_last();
        assert forall|i: int| 0 <= i < head.len() implies is_closed(#[trigger] head[i]) by {
            assert(head[i] == list[i]);
        }
        lemma_stays_closed(s, head);
        let before = with_params(s, head);
        assert(is_closed(list[list.len() - 1]));
        lemma_spaced(before);
        lemma_closed_add(spaced(before), list.last());
    }
}

/// A parameter that is added to a command line whose quotes are closed is there.
proof fn lemma_with_param(s: Seq<char>, p: Seq<char>)
    requires
        is_closed(s),
        is_param(p),
    ensures
        has_param(with_param(s, p), p),
{
    if !has_param(s, p) {
        let r = with_param(s, p);
        lemma_spaced(s);
        lemma_params_add(spaced(s), p);
        assert(params(r)[params(s).len() as int] == p);
        assert(same_param(p, p));
    }
}

/// Whatever is added to a command line whose quotes are closed is there afterwards, up to the first
/// parameter that leaves a quote open; so is that one, if nothing comes behind it.
pub proof fn law_params_are_there(s: Seq<char>, list: Seq<Seq<char>>, i: int)
    requires
        is_closed(s),
        0 <= i < list.len(),
        is_param(list[i]),
        forall|j: int| 0 <= j < i ==> is_closed(#[trigger] list[j]),
        is_closed(list[i]) || i == list.len() - 1,
    ensures
        has_param(with_params(s, list), list[i]),
{
    let p = list[i];
    let head = list.take(i);
    let upto = list.take(i + 1);
    let rest = list.skip(i + 1);
    assert(upto.drop_last() =~= head);
    assert(upto.last() == p);
    assert forall|j: int| 0 <= j < head.len() implies is_closed(#[trigger] head[j]) by {
        assert(head[j] == list[j]);
    }
    lemma_stays_closed(s, head);
    let before = with_params(s, head);
    let with = with_params(s, upto);
    lemma_with_param(before, p);
    assert(upto + rest =~= list);
    lemma_with_params_add(s, upto, rest);
    if is_closed(p) {
        assert forall|j: int| 0 <= j < upto.len() implies is_closed(#[trigger] upto[j]) by {
            assert(upto[j] == list[j]);
        }
        lemma_stays_closed(s, upto);
        law_params_stay_in_front(with, rest);
        let after = with_params(s, list);
        let k = choose|k: int|
            0 <= k < params(with).len() && same_param(#[trigger] params(with)[k], p);
        assert(params(after)[k] == params(with)[k]);
    } else {
        assert(upto =~= list);
    }
}

/// A command line that has all that is to be added stays as it is.
pub proof fn law_what_is_there_is_not_added(s: Seq<char>, list: Seq<Seq<char>>)
    requires
        forall|i: int| 0 <= i < list.len() ==> has_param(s, #[trigger] list[i]),
    ensures
        with_params(s, list) == s,
    decreases list.len(),
{
    if list.len() > 0 {
        let head = list.drop_last();
        assert forall|i: int| 0 <= i < head.len() implies has_param(s, #[trigger] head[i]) by {
            assert(head[i] == list[i]);
        }
        law_what_is_there_is_not_added(s, head);
        assert(has_param(s, list[list.len() - 1]));
    }
}

/// Whether two keys are the same: character by character, but for dashes and underscores.
pub open spec fn same_key(a: Seq<char>, b: Seq<char>) -> bool {
    a.len() == b.len() && forall|i: int|
        0 <= i < a.len() ==> #[trigger] a[i] == b[i] || (a[i] == '-' && b[i] == '_') || (a[i] == '_'
            && b[i] == '-')
}

/// Where the key of a text ends.
proof fn lemma_key_len(key: Seq<char>, rest: Seq<char>)
    requires
        lacks(key, '='),
        rest.len() == 0 || rest[0] == '=',
    ensures
        key_len(key + rest) == key.len(),
    decreases key.len(),
{
    let s = key + rest;
    if key.len() > 0 {
        let tail = key.skip(1);
        assert(s[0] == key[0]);
        assert(s.skip(1) =~= tail + rest);
        assert forall|i: int| 0 <= i < tail.len() implies #[trigger] tail[i] != '=' by {
            assert(tail[i] == key[i + 1]);
        }
        lemma_key_len(tail, rest);
    } else if rest.len() > 0 {
        assert(s[0] == '=');
    }
}

/// The key and the value of a parameter without quotes.
proof fn lemma_key_and_value(key: Seq<char>, value: Seq<char>)
    requires
        lacks(key, '='),
        lacks(key, '"'),
        lacks(value, '"'),
    ensures
        param_key(key + seq!['='] + value).len() == key.len(),
        forall|i: int|
            0 <= i < key.len() ==> #[trigger] param_key(key + seq!['='] + value)[i] == if key[i]
                == '-' {
                '_'
            } else {
                key[i]
            },
        param_value(key + seq!['='] + value) == Some(value),
        param_key(key) == param_key(key + seq!['='] + value),
        param_value(key) is None,
{
    let p = key + seq!['='] + value;
    let rest = seq!['='] + value;
    assert(p =~= key + rest);
    lemma_key_len(key, rest);
    lemma_key_len(key, seq![]);
    assert(key + seq![] =~= key);
    assert(p[0] != '"') by {
        if key.len() > 0 {
            assert(p[0] == key[0]);
        }
    }
    assert(p.last() != '"') by {
        if value.len() > 0 {
            assert(p.last() == value[value.len() - 1]);
        }
    }
    if key.len() > 0 {
        assert(key[0] != '"');
        assert(key[key.len() - 1] != '"');
    }
    assert(p.skip(key.len() as int + 1) =~= value);
    if value.len() > 0 {
        assert(value[0] != '"');
    }
    assert(param_key(key) =~= param_key(p));
}

/// Two parameters are the same exactly if their keys are but for dashes and underscores, and both
/// have the same value or none; quotes round a value do not count.
pub proof fn law_same_params(
    key: Seq<char>,
    value: Seq<char>,
    other_key: Seq<char>,
    other_value: Seq<char>,
)
    requires
        lacks(key, '='),
        lacks(key, '"'),
        lacks(value, '"'),
        lacks(other_key, '='),
        lacks(other_key, '"'),
        lacks(other_value, '"'),
    ensures
        same_param(key + seq!['='] + value, other_key + seq!['='] + other_value) <==> same_key(
            key,
            other_key,
        ) && value == other_value,
        same_param(key, other_key) <==> same_key(key, other_key),
        !same_param(key, other_key + seq!['='] + other_value),
        same_param(key + seq!['=', '"'] + value + seq!['"'], key + seq!['='] + value),
{
    let p = key + seq!['='] + value;
    let q = other_key + seq!['='] + other_value;
    lemma_key_and_value(key, value);
    lemma_key_and_value(other_key, other_value);
    let (a, b) = (param_key(p), param_key(q));
    if same_key(key, other_key) {
        assert forall|i: int| 0 <= i < a.len() implies a[i] == b[i] by {
            assert(key[i] == other_key[i] || (key[i] == '-' && other_key[i] == '_') || (key[i]
                == '_' && other_key[i] == '-'));
        }
        assert(a =~= b);
    }
    if a == b {
        assert forall|i: int| 0 <= i < key.len() implies #[trigger] key[i] == other_key[i] || (
        key[i] == '-' && other_key[i] == '_') || (key[i] == '_' && other_key[i] == '-') by {
            assert(a[i] == b[i]);
        }
        assert(same_key(key, other_key));
    }
    let quoted = key + seq!['=', '"'] + value + seq!['"'];
    let inner = seq!['=', '"'] + value;
    let bare = key + inner;
    assert(quoted[0] != '"') by {
        if key.len() > 0 {
            assert(quoted[0] == key[0]);
        }
    }
    assert(quoted.last() == '"');
    assert(quoted.drop_last() =~= bare);
    lemma_key_len(key, inner);
    assert(bare.skip(key.len() as int + 1) =~= seq!['"'] + value);
    assert((seq!['"'] + value).skip(1) =~= value);
    assert(param_key(quoted) =~= param_key(p)) by {
        assert forall|i: int| 0 <= i < key.len() implies #[trigger] param_key(quoted)[i]
            == param_key(p)[i] by {
            assert(bare[i] == key[i]);
        }
    }
}

/// A parameter that is not there yet is added behind a space, and what is there is not touched; the
/// first parameter of an empty command line needs none.
pub proof fn law_added_behind_a_space(s: Seq<char>, p: Seq<char>)
    requires
        !has_param(s, p),
    ensures
        s.len() == 0 ==> with_params(s, seq![p]) == p,
        s.len() > 0 && lacks(seq![s.last()], ' ') && lacks(seq![s.last()], '\t') && lacks(
            seq![s.last()],
            '\n',
        ) && lacks(seq![s.last()], '\r') && lacks(seq![s.last()], '\u{c}') ==> with_params(
            s,
            seq![p],
        ) == s + seq![' '] + p,
        s.len() > 0 && s.last() == ' ' ==> with_params(s, seq![p]) == s + p,
{
    let one = seq![p];
    assert(one.drop_last() =~= seq![]);
    assert(with_params(s, one.drop_last()) == s);
    assert(one.last() == p);
    if s.len() == 0 {
        assert(s + p =~= p);
    } else {
        let c = s.last();
        assert(seq![c][0] == c);
        assert(s.push(' ') + p =~= s + seq![' '] + p);
    }
}

/// A text without quotes is closed, and every quote opens or closes. White space behind a closed text
/// ends its parameters, and those of what follows stand on their own.
pub proof fn law_white_space_parts_parameters(a: Seq<char>, c: char, b: Seq<char>)
    requires
        c == ' ' || c == '\t' || c == '\n' || c == '\r' || c == '\u{c}',
    ensures
        lacks(a, '"') ==> is_closed(a),
        is_closed(a.push('"')) == !is_closed(a),
        is_closed(a) ==> params(a.push(c) + b) == params(a) + params(b),
    decreases a.len(),
{
    if a.len() > 0 && lacks(a, '"') {
        let head = a.drop_last();
        assert forall|i: int| 0 <= i < head.len() implies #[trigger] head[i] != '"' by {
            assert(head[i] == a[i]);
        }
        law_white_space_parts_parameters(head, c, b);
        assert(a[a.len() - 1] != '"');
    }
    assert(a.push('"').drop_last() =~= a);
    if is_closed(a) {
        let s = a.push(c);
        assert(s.drop_last() =~= a);
        assert(ends_in_gap(s));
        assert(params(s) == params(a));
        lemma_params_add(s, b);
    }
}

/// White space in quotes does not end a parameter: a text without white space, and what stands in quotes
/// behind it, are one; and it is closed with its second quote.
pub proof fn law_quotes_hold_together(a: Seq<char>, mid: Seq<char>)
    requires
        forall|i: int| 0 <= i < a.len() ==> !Class::AsciiWhite.has(#[trigger] a[i]),
        lacks(a, '"'),
        lacks(mid, '"'),
    ensures
        is_param(a + seq!['"'] + mid + seq!['"']),
        is_closed(a + seq!['"'] + mid + seq!['"']),
        is_param(a + seq!['"'] + mid),
        !is_closed(a + seq!['"'] + mid),
    decreases mid.len(),
{
    let open = a + seq!['"'];
    let s = open + mid;
    law_white_space_parts_parameters(a, ' ', seq![]);
    assert(open =~= a.push('"'));
    if mid.len() == 0 {
        assert(s =~= open);
        assert forall|i: int| 0 <= i < open.len() implies !Class::AsciiWhite.has(
            #[trigger] open[i],
        ) by {
            if i < a.len() {
                assert(open[i] == a[i]);
            }
        }
        lemma_unspaced_is_param(open);
    } else {
        let head = mid.drop_last();
        assert forall|i: int| 0 <= i < head.len() implies #[trigger] head[i] != '"' by {
            assert(head[i] == mid[i]);
        }
        law_quotes_hold_together(a, head);
        assert(s.drop_last() =~= open + head);
        assert(s.last() == mid[mid.len() - 1]);
        let before = open + head;
        assert(!ends_in_gap(s));
        assert(!ends_in_gap(before)) by {
            if before.len() > 1 && head.len() > 0 {
                assert(before.drop_last() =~= open + head.drop_last());
                let h = head.drop_last();
                assert forall|i: int| 0 <= i < h.len() implies #[trigger] h[i] != '"' by {
                    assert(h[i] == head[i]);
                }
                law_quotes_hold_together(a, h);
            } else {
                assert(before =~= open);
                assert(before.last() == '"');
            }
        }
        assert(params(s) =~= seq![s]) by {
            assert(before.push(s.last()) =~= s);
        }
    }
    let whole = s + seq!['"'];
    assert(whole =~= s.push('"'));
    assert(whole.drop_last() =~= s);
    assert(whole.last() == '"');
    assert(!is_closed(s));
    assert(is_closed(whole));
    assert(!ends_in_gap(s)) by {
        if mid.len() > 0 {
            let h = mid.drop_last();
            assert(s.drop_last() =~= open + h);
        } else {
            assert(s.last() == '"');
        }
    }
    assert(params(whole) =~= seq![whole]) by {
        assert(s.push('"') =~= whole);
    }
}

} // verus!
