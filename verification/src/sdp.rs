//! What an offer says of the ways in which the browser can be reached: the kinds of its ICE
//! candidates (host, srflx, relay, ...).

use crate::text::{
    begins_with, chars_of, comes_before, coming_before_carries_on, eq_ignore_ascii_case, index_of,
    index_of_is_first, is_space, join2, none_comes_before_itself, one_comes_before_the_other, pieces,
    piece_end, precedes, same, same_ignoring_case, slice_begins_with, space, texts_of,
};
use str0m::change::SdpOffer;
use vstd::prelude::*;

verus! {

broadcast use vstd::string::group_string_axioms;

/// `str0m::change::SdpOffer`, an offer that has been read.
#[verifier::external_type_specification]
#[verifier::external_body]
pub struct ExSdpOffer(SdpOffer);

/// Whether an offer is one that reading a text as a session description can give. A text can give
/// more than one: the parameters of some formats come in the order in which a hash map is walked.
pub uninterp spec fn offer_in(text: Seq<char>, offer: SdpOffer) -> bool;

/// Whether a text is a session description that can be read as an offer.
pub open spec fn readable_offer(text: Seq<char>) -> bool {
    exists|offer: SdpOffer| offer_in(text, offer)
}

/// `SdpOffer::from_sdp_string` reads an offer out of a text, and out of nothing else; whether there
/// is one rests on the text alone. Nothing is said of the reason why there is none, which tells where
/// in memory the reading stopped.
#[verifier::external_body]
fn read_offer(text: &str) -> (r: Result<SdpOffer, String>)
    ensures
        match r {
            Ok(offer) => offer_in(text@, offer),
            Err(_) => forall|offer: SdpOffer| !offer_in(text@, offer),
        },
{
    SdpOffer::from_sdp_string(text).map_err(|e| e.to_string())
}

/// What is handed out for an offer that could, or could not, be read.
pub fn offer_outcome(read: Result<SdpOffer, String>) -> (r: Result<SdpOffer, String>)
    ensures
        match read {
            Ok(offer) => r matches Ok(given) && given == offer,
            Err(why) => r matches Err(e) && e@ == "invalid SDP offer: "@ + why@,
        },
{
    match read {
        Ok(offer) => Ok(offer),
        Err(why) => Err(join2("invalid SDP offer: ", &why)),
    }
}

/// Reads the offer of a browser.
pub fn offer_of(text: &str) -> (r: Result<SdpOffer, String>)
    ensures
        r is Ok == readable_offer(text@),
        r matches Ok(offer) ==> offer_in(text@, offer),
        r matches Err(e) ==> begins_with(e@, "invalid SDP offer: "@),
{
    let r = offer_outcome(read_offer(text));
    proof {
        if let Err(e) = &r {
            let start = "invalid SDP offer: "@;
            assert(e@.take(start.len() as int) =~= start);
        }
    }
    r
}

/// The words of `s`: the runs of characters between white space.
pub open spec fn words(s: Seq<char>) -> Seq<Seq<char>>
    decreases s.len(),
{
    if s.len() == 0 {
        Seq::empty()
    } else {
        let before = words(s.drop_last());
        if is_space(s.last()) {
            before
        } else if s.len() == 1 || is_space(s[s.len() - 2]) {
            before.push(seq![s.last()])
        } else {
            before.drop_last().push(before.last().push(s.last()))
        }
    }
}

/// The word that follows the first `key`, or a question mark.
pub open spec fn word_after(list: Seq<Seq<char>>, key: Seq<char>) -> Seq<char>
    decreases list.len(),
{
    if list.len() == 0 {
        "?"@
    } else if list[0] == key {
        if list.len() > 1 {
            list[1]
        } else {
            "?"@
        }
    } else {
        word_after(list.drop_first(), key)
    }
}

/// Whether a line describes a candidate.
pub open spec fn is_candidate(line: Seq<char>) -> bool {
    begins_with(line, "a=candidate:"@)
}

/// The kind of the candidate that a line describes: what its type says, unless it goes over TCP.
pub open spec fn kind_of(line: Seq<char>) -> Seq<char> {
    let list = words(line);
    let protocol = if list.len() > 2 {
        list[2]
    } else {
        "?"@
    };
    if same_ignoring_case(protocol, "tcp"@) {
        "tcp"@
    } else {
        word_after(list, "typ"@)
    }
}

/// The kinds of the candidates among some lines, in order.
pub open spec fn kinds_of(lines: Seq<Seq<char>>) -> Seq<Seq<char>>
    decreases lines.len(),
{
    if lines.len() == 0 {
        Seq::empty()
    } else if is_candidate(lines[0]) {
        seq![kind_of(lines[0])] + kinds_of(lines.drop_first())
    } else {
        kinds_of(lines.drop_first())
    }
}

proof fn words_end_open(s: Seq<char>)
    requires
        s.len() > 0,
        !is_space(s.last()),
    ensures
        words(s).len() > 0,
{
}

/// The words of `chars[from..to]`.
pub fn words_in(chars: &[char], from: usize, to: usize) -> (list: Vec<String>)
    requires
        from <= to <= chars@.len(),
    ensures
        texts_of(list@) == words(chars@.subrange(from as int, to as int)),
{
    let ghost whole = chars@.subrange(from as int, to as int);
    let mut list: Vec<String> = Vec::new();
    let mut i: usize = from;
    assert(texts_of(list@) =~= words(whole.take(0)));
    while i < to
        invariant
            from <= i <= to <= chars@.len(),
            whole == chars@.subrange(from as int, to as int),
            texts_of(list@) == words(whole.take(i - from)),
        decreases to - i,
    {
        let ghost n = i - from;
        let ghost longer = whole.take(n + 1);
        assert(longer.drop_last() =~= whole.take(n));
        assert(longer.last() == chars@[i as int]);
        let c: char = chars[i];
        if !space(c) {
            let ghost before = list@;
            if i == from || space(chars[i - 1]) {
                let mut w = String::new();
                w.push(c);
                list.push(w);
                assert(w@ =~= seq![c]);
                assert(n > 0 ==> longer[n - 1] == chars@[i - 1]);
                assert(texts_of(list@) =~= words(longer));
            } else {
                proof {
                    assert(longer[n - 1] == chars@[i - 1]);
                    words_end_open(whole.take(n));
                    assert(texts_of(before).len() > 0);
                }
                match list.pop() {
                    Some(last) => {
                        let mut w = last;
                        assert(texts_of(before).last() == w@);
                        w.push(c);
                        list.push(w);
                        assert(texts_of(list@) =~= texts_of(before).drop_last().push(w@));
                    },
                    None => {},
                }
            }
        }
        i += 1;
    }
    assert(whole.take(to - from) =~= whole);
    list
}

fn follower(list: &Vec<String>, key: &str) -> (w: String)
    ensures
        w@ == word_after(texts_of(list@), key@),
{
    let mut i: usize = 0;
    assert(texts_of(list@).skip(0) =~= texts_of(list@));
    while i < list.len()
        invariant
            i <= list@.len(),
            word_after(texts_of(list@).skip(i as int), key@) == word_after(texts_of(list@), key@),
        decreases list@.len() - i,
    {
        assert(texts_of(list@).skip(i as int)[0] == list@[i as int]@);
        assert(texts_of(list@).skip(i as int).drop_first() =~= texts_of(list@).skip(i + 1));
        if same(&list[i], key) {
            if i + 1 < list.len() {
                assert(texts_of(list@).skip(i as int)[1] == list@[i + 1]@);
                return list[i + 1].clone();
            }
            return "?".to_owned();
        }
        i += 1;
    }
    "?".to_owned()
}

fn kind_in(chars: &[char], from: usize, to: usize) -> (k: String)
    requires
        from <= to <= chars@.len(),
    ensures
        k@ == kind_of(chars@.subrange(from as int, to as int)),
{
    let list = words_in(chars, from, to);
    let tcp = if list.len() > 2 {
        assert(texts_of(list@)[2] == list@[2]@);
        eq_ignore_ascii_case(&list[2], "tcp")
    } else {
        eq_ignore_ascii_case("?", "tcp")
    };
    if tcp {
        "tcp".to_owned()
    } else {
        follower(&list, "typ")
    }
}

/// The kinds of the candidates of an offer, in order.
pub fn candidate_kinds(offer: &str) -> (kinds: Vec<String>)
    ensures
        texts_of(kinds@) == kinds_of(pieces(offer@, '\n')),
{
    let chars = chars_of(offer);
    let prefix = chars_of("a=candidate:");
    let mut kinds: Vec<String> = Vec::new();
    let mut from: usize = 0;
    assert(offer@.skip(0) =~= offer@);
    assert(texts_of(kinds@) + kinds_of(pieces(offer@, '\n')) =~= kinds_of(pieces(offer@, '\n')));
    loop
        invariant
            chars@ == offer@,
            prefix@ == "a=candidate:"@,
            from <= chars@.len(),
            texts_of(kinds@) + kinds_of(pieces(offer@.skip(from as int), '\n')) == kinds_of(
                pieces(offer@, '\n'),
            ),
        decreases chars@.len() - from,
    {
        let end: usize = piece_end(&chars, from, '\n');
        let ghost rest = offer@.skip(from as int);
        let ghost k = index_of(rest, '\n') as int;
        let ghost line = chars@.subrange(from as int, end as int);
        let ghost before = texts_of(kinds@);
        proof {
            index_of_is_first(rest, '\n');
            assert(line =~= rest.take(k));
        }
        if slice_begins_with(&chars, from, end, &prefix) {
            kinds.push(kind_in(&chars, from, end));
            assert(texts_of(kinds@) =~= before.push(kind_of(line)));
        }
        if end == chars.len() {
            proof {
                assert(rest =~= line);
                let list = pieces(rest, '\n');
                assert(list =~= seq![line]);
                assert(list.drop_first() =~= Seq::empty());
                assert(kinds_of(list.drop_first()) =~= Seq::empty());
                assert(texts_of(kinds@) =~= before + kinds_of(list));
            }
            return kinds;
        }
        proof {
            let tail = offer@.skip(end + 1);
            assert(rest.skip(k + 1) =~= tail);
            let list = pieces(rest, '\n');
            assert(list == seq![line] + pieces(tail, '\n'));
            assert(list[0] == line);
            assert(list.drop_first() =~= pieces(tail, '\n'));
            assert(texts_of(kinds@) + kinds_of(pieces(tail, '\n')) =~= before + kinds_of(list));
        }
        from = end + 1;
    }
}

/// The kinds of a tally.
pub open spec fn tallied(entries: Seq<(String, u64)>) -> Seq<Seq<char>> {
    entries.map_values(|e: (String, u64)| e.0@)
}

/// How often a kind occurs.
pub open spec fn occurrences(kinds: Seq<Seq<char>>, k: Seq<char>) -> nat
    decreases kinds.len(),
{
    if kinds.len() == 0 {
        0
    } else {
        occurrences(kinds.drop_last(), k) + if kinds.last() == k {
            1nat
        } else {
            0
        }
    }
}

/// Whether texts stand in order, none of them twice.
pub open spec fn in_order(texts: Seq<Seq<char>>) -> bool {
    forall|i: int, j: int| 0 <= i < j < texts.len() ==> comes_before(texts[i], texts[j])
}

/// Whether `entries` says, in order and once for each of the kinds, how often it occurs.
pub open spec fn is_tally(entries: Seq<(String, u64)>, kinds: Seq<Seq<char>>) -> bool {
    &&& in_order(tallied(entries))
    &&& forall|i: int|
        0 <= i < entries.len() ==> (#[trigger] entries[i]).1 == occurrences(kinds, entries[i].0@)
    &&& forall|k: Seq<char>| occurrences(kinds, k) > 0 <==> #[trigger] tallied(entries).contains(k)
}

proof fn order_has_no_repeats(texts: Seq<Seq<char>>, i: int, j: int)
    requires
        in_order(texts),
        0 <= i < texts.len(),
        0 <= j < texts.len(),
        texts[i] == texts[j],
    ensures
        i == j,
{
    none_comes_before_itself(texts[i]);
}

/// A text that comes behind the first `j` of those in order, and not behind the next, goes between.
proof fn place_in_order(texts: Seq<Seq<char>>, j: int, text: Seq<char>)
    requires
        in_order(texts),
        0 <= j <= texts.len(),
        forall|m: int| 0 <= m < j ==> comes_before(#[trigger] texts[m], text),
        j < texts.len() ==> !comes_before(texts[j], text) && texts[j] != text,
    ensures
        !texts.contains(text),
        in_order(texts.insert(j, text)),
{
    let longer = texts.insert(j, text);
    if j < texts.len() {
        one_comes_before_the_other(texts[j], text);
    }
    assert forall|m: int| j <= m < texts.len() implies comes_before(text, #[trigger] texts[m]) by {
        if m > j {
            coming_before_carries_on(text, texts[j], texts[m]);
        }
    }
    none_comes_before_itself(text);
    assert forall|a: int, b: int| 0 <= a < b < longer.len() implies comes_before(
        longer[a],
        longer[b],
    ) by {
        let x = if a < j { a } else { a - 1 };
        let y = if b < j { b } else { b - 1 };
        if a != j {
            assert(longer[a] == texts[x]);
        }
        if b != j {
            assert(longer[b] == texts[y]);
        }
    }
}

proof fn occurrences_at_most(kinds: Seq<Seq<char>>, k: Seq<char>)
    ensures
        occurrences(kinds, k) <= kinds.len(),
    decreases kinds.len(),
{
    if kinds.len() > 0 {
        occurrences_at_most(kinds.drop_last(), k);
    }
}

/// Counts kinds: each of them once, in order, with how often it occurs.
pub fn tally(kinds: &Vec<String>) -> (entries: Vec<(String, u64)>)
    ensures
        is_tally(entries@, texts_of(kinds@)),
{
    let mut entries: Vec<(String, u64)> = Vec::new();
    let ghost all = texts_of(kinds@);
    let mut i: usize = 0;
    assert(is_tally(entries@, all.take(0))) by {
        assert(tallied(entries@) =~= Seq::empty());
    }
    while i < kinds.len()
        invariant
            i <= kinds@.len(),
            all == texts_of(kinds@),
            is_tally(entries@, all.take(i as int)),
        decreases kinds@.len() - i,
    {
        let ghost done = all.take(i as int);
        let ghost next = all.take(i + 1);
        let ghost kind = kinds@[i as int]@;
        assert(next.drop_last() =~= done);
        assert(next.last() == kind);
        let ghost before = entries@;
        let mut j: usize = 0;
        while j < entries.len() && precedes(&entries[j].0, &kinds[i])
            invariant
                i < kinds@.len(),
                kind == kinds@[i as int]@,
                entries@ == before,
                j <= entries@.len(),
                forall|m: int| 0 <= m < j ==> comes_before((#[trigger] entries@[m]).0@, kind),
            decreases entries@.len() - j,
        {
            j += 1;
        }
        if j < entries.len() && same(&entries[j].0, &kinds[i]) {
            let n: u64 = entries[j].1;
            proof {
                occurrences_at_most(done, kind);
                assert(before[j as int].1 == occurrences(done, kind));
                assert(n < kinds@.len() + 1);
            }
            let limit: usize = kinds.len();
            let name = entries[j].0.clone();
            assert(n <= i < limit);
            entries.set(j, (name, n + 1));
            proof {
                assert(tallied(entries@) =~= tallied(before));
                assert forall|m: int| 0 <= m < entries@.len() implies (#[trigger] entries@[m]).1
                    == occurrences(next, entries@[m].0@) by {
                    if m != j {
                        assert(entries@[m] == before[m]);
                        assert(tallied(before)[m] == before[m].0@);
                        assert(tallied(before)[j as int] == before[j as int].0@);
                        if before[m].0@ == kind {
                            order_has_no_repeats(tallied(before), m, j as int);
                        }
                        assert(before[m].1 == occurrences(done, before[m].0@));
                    }
                }
                assert forall|k: Seq<char>|
                    occurrences(next, k) > 0 <==> #[trigger] tallied(entries@).contains(k) by {
                    assert(occurrences(done, k) > 0 <==> tallied(before).contains(k));
                    if k == kind {
                        assert(tallied(before)[j as int] == kind);
                    }
                }
            }
        } else {
            proof {
                assert forall|m: int| 0 <= m < j implies comes_before(
                    #[trigger] tallied(before)[m],
                    kind,
                ) by {
                    assert(comes_before(before[m].0@, kind));
                }
                if j < before.len() {
                    assert(tallied(before)[j as int] == before[j as int].0@);
                }
                place_in_order(tallied(before), j as int, kind);
                assert(occurrences(done, kind) == 0);
            }
            entries.insert(j, (kinds[i].clone(), 1));
            proof {
                let longer = tallied(before).insert(j as int, kind);
                assert(tallied(entries@) =~= longer);
                assert forall|m: int| 0 <= m < entries@.len() implies (#[trigger] entries@[m]).1
                    == occurrences(next, entries@[m].0@) by {
                    if m != j {
                        let b = if m < j { m } else { m - 1 };
                        assert(entries@[m] == before[b]);
                        assert(tallied(before)[b] == before[b].0@);
                        assert(before[b].1 == occurrences(done, before[b].0@));
                    }
                }
                assert forall|k: Seq<char>|
                    occurrences(next, k) > 0 <==> #[trigger] tallied(entries@).contains(k) by {
                    assert(occurrences(done, k) > 0 <==> tallied(before).contains(k));
                    if k == kind {
                        assert(longer[j as int] == kind);
                    } else if tallied(before).contains(k) {
                        let m = choose|m: int|
                            0 <= m < tallied(before).len() && tallied(before)[m] == k;
                        assert(longer[if m < j { m } else { m + 1 }] == k);
                    } else if longer.contains(k) {
                        let m = choose|m: int| 0 <= m < longer.len() && longer[m] == k;
                        assert(tallied(before)[if m < j { m } else { m - 1 }] == k);
                    }
                }
            }
        }
        i += 1;
    }
    assert(all.take(i as int) =~= all);
    entries
}

/// Whether the browser can be reached through a relay.
pub fn offers_relay(kinds: &Vec<String>) -> (b: bool)
    ensures
        b == texts_of(kinds@).contains("relay"@),
{
    let mut i: usize = 0;
    while i < kinds.len()
        invariant
            i <= kinds@.len(),
            forall|j: int| 0 <= j < i ==> (#[trigger] texts_of(kinds@)[j]) != "relay"@,
        decreases kinds@.len() - i,
    {
        assert(texts_of(kinds@)[i as int] == kinds@[i as int]@);
        if same(&kinds[i], "relay") {
            return true;
        }
        i += 1;
    }
    false
}

/// Words are what stands between white space: what stands on both sides of a white space is split on
/// its own, a text without white space is one word, and the empty text has none.
pub proof fn white_space_parts_words(a: Seq<char>, c: char, b: Seq<char>)
    requires
        is_space(c),
    ensures
        words(a + seq![c] + b) == words(a) + words(b),
    decreases b.len(),
{
    let s = a + seq![c] + b;
    if b.len() == 0 {
        assert(s.drop_last() =~= a);
        assert(s.last() == c);
        assert(words(s) =~= words(a) + words(b));
    } else {
        let rest = b.drop_last();
        assert(s.drop_last() =~= a + seq![c] + rest);
        assert(s.last() == b.last());
        white_space_parts_words(a, c, rest);
        if !is_space(b.last()) {
            if b.len() == 1 {
                assert(s[s.len() - 2] == c);
                assert(words(rest) =~= Seq::empty());
            } else {
                assert(s[s.len() - 2] == b[b.len() - 2]);
                if !is_space(b[b.len() - 2]) {
                    assert(rest.last() == b[b.len() - 2]);
                    words_end_open(rest);
                    assert(words(s.drop_last()).last() == words(rest).last());
                }
            }
        }
        assert(words(s) =~= words(a) + words(b));
    }
}

/// A text without white space is one word, unless it is empty; then it has none.
pub proof fn a_word_is_one_word(w: Seq<char>)
    requires
        forall|i: int| 0 <= i < w.len() ==> !is_space(#[trigger] w[i]),
    ensures
        w.len() > 0 ==> words(w) == seq![w],
        w.len() == 0 ==> words(w).len() == 0,
    decreases w.len(),
{
    if w.len() == 1 {
        assert(words(w.drop_last()) =~= Seq::empty());
        assert(seq![w.last()] =~= w);
        assert(words(w) =~= seq![w]);
    } else if w.len() > 1 {
        let rest = w.drop_last();
        assert forall|i: int| 0 <= i < rest.len() implies !is_space(#[trigger] rest[i]) by {
            assert(rest[i] == w[i]);
        }
        a_word_is_one_word(rest);
        assert(!is_space(w[w.len() - 2]));
        assert(!is_space(w[w.len() - 1]));
        assert(rest.push(w.last()) =~= w);
        assert(words(rest).last() == rest);
        assert(words(w) =~= seq![w]);
    }
}

/// What follows a word is the word behind its first occurrence; a question mark stands for it where
/// there is none.
pub proof fn the_next_word_follows(list: Seq<Seq<char>>, key: Seq<char>, i: int)
    requires
        0 <= i <= list.len(),
        i < list.len() ==> list[i] == key,
        forall|j: int| 0 <= j < i ==> #[trigger] list[j] != key,
    ensures
        word_after(list, key) == if i + 1 < list.len() {
            list[i + 1]
        } else {
            "?"@
        },
    decreases list.len(),
{
    if i > 0 {
        assert(list[0] != key);
        let rest = list.drop_first();
        assert forall|j: int| 0 <= j < i - 1 implies #[trigger] rest[j] != key by {
            assert(rest[j] == list[j + 1]);
        }
        if i < list.len() {
            assert(rest[i - 1] == list[i]);
        }
        if i + 1 < list.len() {
            assert(rest[i] == list[i + 1]);
        }
        the_next_word_follows(rest, key, i - 1);
    }
}

/// A candidate whose third word is TCP, in any case, is one over TCP; of any other the word after the
/// first `typ` is the kind.
pub proof fn candidates_tell_their_kind(line: Seq<char>, i: int)
    requires
        0 <= i <= words(line).len(),
        i < words(line).len() ==> words(line)[i] == "typ"@,
        forall|j: int| 0 <= j < i ==> #[trigger] words(line)[j] != "typ"@,
    ensures
        ({
            let list = words(line);
            let tcp = list.len() > 2 && same_ignoring_case(list[2], "tcp"@);
            &&& tcp ==> kind_of(line) == "tcp"@
            &&& !tcp && i + 1 < list.len() ==> kind_of(line) == list[i + 1]
            &&& !tcp && i + 1 >= list.len() ==> kind_of(line) == "?"@
        }),
{
    reveal_strlit("?");
    reveal_strlit("tcp");
    the_next_word_follows(words(line), "typ"@, i);
}

/// Every candidate counts, wherever its line stands, and no other line does: the kinds of two runs of
/// lines are those of the first followed by those of the second, and a single line has a kind exactly
/// if it begins as a candidate.
pub proof fn every_candidate_counts(first: Seq<Seq<char>>, second: Seq<Seq<char>>, line: Seq<char>)
    ensures
        kinds_of(first + second) == kinds_of(first) + kinds_of(second),
        begins_with(line, "a=candidate:"@) ==> kinds_of(seq![line]) == seq![kind_of(line)],
        !begins_with(line, "a=candidate:"@) ==> kinds_of(seq![line]).len() == 0,
        kinds_of(Seq::<Seq<char>>::empty()).len() == 0,
    decreases first.len(),
{
    let one = seq![line];
    assert(one.drop_first() =~= Seq::empty());
    assert(kinds_of(one.drop_first()) =~= Seq::empty());
    assert(kinds_of(one) =~= if begins_with(line, "a=candidate:"@) {
        seq![kind_of(line)]
    } else {
        Seq::empty()
    });
    if first.len() == 0 {
        assert(first + second =~= second);
        assert(kinds_of(first) + kinds_of(second) =~= kinds_of(second));
    } else {
        let rest = first.drop_first();
        every_candidate_counts(rest, second, line);
        assert((first + second)[0] == first[0]);
        assert((first + second).drop_first() =~= rest + second);
        assert(kinds_of(first + second) =~= kinds_of(first) + kinds_of(second));
    }
}

/// Counting adds up: a kind occurs in two runs as often as in both together, and once in a run of
/// itself.
pub proof fn counting_adds_up(first: Seq<Seq<char>>, second: Seq<Seq<char>>, k: Seq<char>, x: Seq<char>)
    ensures
        occurrences(first + second, k) == occurrences(first, k) + occurrences(second, k),
        occurrences(seq![x], k) == (if x == k {
            1int
        } else {
            0int
        }),
        occurrences(Seq::<Seq<char>>::empty(), k) == 0,
    decreases second.len(),
{
    reveal_with_fuel(occurrences, 2);
    assert(seq![x].drop_last() =~= Seq::empty());
    if second.len() == 0 {
        assert(first + second =~= first);
    } else {
        counting_adds_up(first, second.drop_last(), k, x);
        assert((first + second).drop_last() =~= first + second.drop_last());
    }
}

/// A tally names every kind that occurs, and no other, once and in order, with how often it occurs.
pub proof fn tallies_count_each_kind(
    entries: Seq<(String, u64)>,
    kinds: Seq<Seq<char>>,
    i: int,
    j: int,
    k: int,
)
    requires
        is_tally(entries, kinds),
    ensures
        0 <= i < j < entries.len() ==> comes_before(entries[i].0@, entries[j].0@),
        0 <= i < entries.len() ==> entries[i].1 == occurrences(kinds, entries[i].0@),
        0 <= i < entries.len() ==> kinds.contains(entries[i].0@),
        0 <= k < kinds.len() ==> exists|m: int|
            0 <= m < entries.len() && (#[trigger] entries[m]).0@ == kinds[k],
{
    if 0 <= i < j < entries.len() {
        assert(comes_before(tallied(entries)[i], tallied(entries)[j]));
    }
    if 0 <= i < entries.len() {
        let kind = entries[i].0@;
        assert(tallied(entries)[i] == kind);
        assert(tallied(entries).contains(kind));
        what_occurs_is_there(kinds, kind);
    }
    if 0 <= k < kinds.len() {
        what_is_there_occurs(kinds, k);
        assert(tallied(entries).contains(kinds[k]));
        let m = choose|m: int| 0 <= m < tallied(entries).len() && tallied(entries)[m] == kinds[k];
        assert(entries[m].0@ == kinds[k]);
    }
}

proof fn what_occurs_is_there(kinds: Seq<Seq<char>>, kind: Seq<char>)
    requires
        occurrences(kinds, kind) > 0,
    ensures
        kinds.contains(kind),
    decreases kinds.len(),
{
    if kinds.last() == kind {
        assert(kinds[kinds.len() - 1] == kind);
    } else {
        what_occurs_is_there(kinds.drop_last(), kind);
        let m = choose|m: int| 0 <= m < kinds.len() - 1 && kinds.drop_last()[m] == kind;
        assert(kinds[m] == kind);
    }
}

proof fn what_is_there_occurs(kinds: Seq<Seq<char>>, k: int)
    requires
        0 <= k < kinds.len(),
    ensures
        occurrences(kinds, kinds[k]) > 0,
    decreases kinds.len(),
{
    if k < kinds.len() - 1 {
        what_is_there_occurs(kinds.drop_last(), k);
    }
}

} // verus!
