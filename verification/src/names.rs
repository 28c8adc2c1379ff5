//! The file names of a channel: `base` for the first segment, `base.N` for the
//! others, and the same with `.partial` behind it while a segment is being laid out.
use vstd::prelude::*;

use crate::text::{decimal, decimal_text, is_digit, parse_u64, parsed_u64, without_plus};

verus! {

/// What is behind the name of a segment that is being laid out.
pub open spec fn partial_suffix() -> Seq<char> {
    seq!['.', 'p', 'a', 'r', 't', 'i', 'a', 'l']
}

/// The file name of a segment.
pub open spec fn segment_name(base: Seq<char>, sequence: u64) -> Seq<char> {
    if sequence == 0 {
        base
    } else {
        base + seq!['.'] + decimal_text(sequence as nat)
    }
}

/// The file name of a segment while it is being laid out.
pub open spec fn partial_name(base: Seq<char>, sequence: u64) -> Seq<char> {
    segment_name(base, sequence) + partial_suffix()
}

/// `name` is `base`, a dot, and more.
pub open spec fn dotted(name: Seq<char>, base: Seq<char>) -> bool {
    &&& base.len() < name.len()
    &&& name.subrange(0, base.len() as int) == base
    &&& name[base.len() as int] == '.'
}

/// What is behind `base` and a dot.
pub open spec fn behind_dot(name: Seq<char>, base: Seq<char>) -> Seq<char> {
    name.subrange(base.len() as int + 1, name.len() as int)
}

/// The sequence number of the segment with the given file name, if it is one of the
/// channel at `base`.
pub open spec fn sequence_of(name: Seq<char>, base: Seq<char>) -> Option<u64> {
    if name == base {
        Some(0)
    } else if dotted(name, base) {
        parsed_u64(behind_dot(name, base))
    } else {
        None
    }
}

/// `s` ends in the suffix of segments that are being laid out.
pub open spec fn ends_partial(s: Seq<char>) -> bool {
    &&& s.len() >= partial_suffix().len()
    &&& s.subrange(s.len() - partial_suffix().len(), s.len() as int) == partial_suffix()
}

/// `s` without that suffix.
pub open spec fn without_partial(s: Seq<char>) -> Seq<char> {
    s.subrange(0, s.len() - partial_suffix().len())
}

/// `name` is that of a segment of the channel at `base` that is being laid out.
pub open spec fn partial_of(name: Seq<char>, base: Seq<char>) -> bool {
    ||| name == base + partial_suffix()
    ||| {
        &&& dotted(name, base)
        &&& ends_partial(behind_dot(name, base))
        &&& parsed_u64(without_partial(behind_dot(name, base))) is Some
    }
}

fn same_text(a: &str, b: &str) -> (r: bool)
    ensures
        r == (a@ == b@),
{
    a.to_owned() == b.to_owned()
}

/// The file name of the segment at `sequence`.
pub fn make_channel_file_path(base: &str, sequence: u64) -> (s: String)
    ensures
        s@ == segment_name(base@, sequence),
{
    if sequence == 0 {
        return base.to_owned();
    }
    proof {
        reveal_strlit(".");
        assert("."@ =~= seq!['.']);
    }
    let digits = decimal(sequence);
    base.to_owned().concat(".").concat(digits.as_str())
}

/// The file name of the segment at `sequence` while it is being laid out.
pub fn make_partial_channel_file_path(base: &str, sequence: u64) -> (s: String)
    ensures
        s@ == partial_name(base@, sequence),
{
    proof {
        reveal_strlit(".partial");
        assert(".partial"@ =~= partial_suffix());
    }
    make_channel_file_path(base, sequence).concat(".partial")
}

/// What is behind `base` and a dot in `name`, if that is how it begins.
fn strip_base<'a>(name: &'a str, base: &str) -> (r: Option<&'a str>)
    ensures
        match r {
            Some(rest) => dotted(name@, base@) && rest@ == behind_dot(name@, base@),
            None => !dotted(name@, base@),
        },
{
    let n = name.unicode_len();
    let b = base.unicode_len();
    if b >= n {
        return None;
    }
    if !same_text(name.substring_char(0, b), base) {
        return None;
    }
    if name.get_char(b) != '.' {
        return None;
    }
    Some(name.substring_char(b + 1, n))
}

/// Whether `name` is that of a segment of the channel at `base_name` that is being
/// laid out: `base.partial` or `base.N.partial`. Other names with the same ending are
/// not the channel's.
pub fn is_partial_segment_name(name: &str, base_name: &str) -> (r: bool)
    ensures
        r == partial_of(name@, base_name@),
{
    proof {
        reveal_strlit(".partial");
        assert(".partial"@ =~= partial_suffix());
    }
    let base_partial = base_name.to_owned().concat(".partial");
    if name.to_owned() == base_partial {
        return true;
    }
    match strip_base(name, base_name) {
        None => false,
        Some(rest) => {
            let n = rest.unicode_len();
            if n < 8 {
                return false;
            }
            if !same_text(rest.substring_char(n - 8, n), ".partial") {
                return false;
            }
            parse_u64(rest.substring_char(0, n - 8)).is_some()
        },
    }
}

/// The sequence number of the segment with the file name `name`, if it is one of the
/// channel at `base_name`.
pub fn parse_sequence(name: &str, base_name: &str) -> (r: Option<u64>)
    ensures
        r == sequence_of(name@, base_name@),
{
    if same_text(name, base_name) {
        return Some(0);
    }
    match strip_base(name, base_name) {
        None => None,
        Some(rest) => parse_u64(rest),
    }
}

/// Whether `name` is a file of the channel at `base_name`: a segment, laid out or
/// not.
pub fn is_channel_file_name(name: &str, base_name: &str) -> (r: bool)
    ensures
        r == (sequence_of(name@, base_name@) is Some || partial_of(name@, base_name@)),
{
    parse_sequence(name, base_name).is_some() || is_partial_segment_name(name, base_name)
}

/// The sequence numbers among the given file names, in their order.
pub open spec fn sequences_in(names: Seq<Seq<char>>, base: Seq<char>) -> Seq<u64>
    decreases names.len(),
{
    if names.len() == 0 {
        seq![]
    } else {
        let rest = sequences_in(names.drop_last(), base);
        match sequence_of(names.last(), base) {
            Some(s) => rest.push(s),
            None => rest,
        }
    }
}

/// The texts of file names.
pub open spec fn texts(names: Seq<String>) -> Seq<Seq<char>> {
    Seq::new(names.len(), |i: int| names[i]@)
}

/// In ascending order.
pub open spec fn ascending(s: Seq<u64>) -> bool {
    forall|i: int, j: int| 0 <= i <= j < s.len() ==> s[i] <= s[j]
}

proof fn lemma_insert_multiset(s: Seq<u64>, i: int, x: u64)
    requires
        0 <= i <= s.len(),
    ensures
        s.insert(i, x).to_multiset() == s.push(x).to_multiset(),
{
    let a = s.subrange(0, i);
    let b = s.subrange(i, s.len() as int);
    assert(s.insert(i, x) =~= (a + seq![x]) + b);
    assert(s.push(x) =~= (a + b) + seq![x]);
    vstd::seq_lib::lemma_multiset_commutative(a + seq![x], b);
    vstd::seq_lib::lemma_multiset_commutative(a, seq![x]);
    vstd::seq_lib::lemma_multiset_commutative(a + b, seq![x]);
    vstd::seq_lib::lemma_multiset_commutative(a, b);
    assert(s.insert(i, x).to_multiset() =~= s.push(x).to_multiset());
}

fn insert_ascending(v: &mut Vec<u64>, x: u64)
    requires
        ascending(old(v)@),
        old(v)@.len() < usize::MAX,
    ensures
        ascending(final(v)@),
        final(v)@.to_multiset() == old(v)@.push(x).to_multiset(),
        final(v)@.len() == old(v)@.len() + 1,
{
    let mut i: usize = v.len();
    while i > 0 && v[i - 1] > x
        invariant
            0 <= i <= v@.len(),
            v@ == old(v)@,
            forall|k: int| i <= k < v@.len() ==> v@[k] > x,
        decreases i,
    {
        i = i - 1;
    }
    proof {
        lemma_insert_multiset(v@, i as int, x);
    }
    v.insert(i, x);
}

/// The sequence numbers of all segments of the channel at `base_name` among the
/// files of its directory, in ascending order. Segments that are being laid out are
/// not among them.
pub fn find_all_sequences(names: &Vec<String>, base_name: &str) -> (v: Vec<u64>)
    ensures
        ascending(v@),
        v@.to_multiset() == sequences_in(texts(names@), base_name@).to_multiset(),
{
    let mut v: Vec<u64> = Vec::new();
    let mut i: usize = 0;
    while i < names.len()
        invariant
            i <= names@.len(),
            v@.len() <= i,
            ascending(v@),
            v@.to_multiset() == sequences_in(
                texts(names@).subrange(0, i as int),
                base_name@,
            ).to_multiset(),
        decreases names@.len() - i,
    {
        let ghost before = sequences_in(texts(names@).subrange(0, i as int), base_name@);
        let ghost v0 = v@;
        proof {
            let upto = texts(names@).subrange(0, i + 1);
            assert(upto.drop_last() =~= texts(names@).subrange(0, i as int));
            assert(upto.last() == names@[i as int]@);
        }
        match parse_sequence(names[i].as_str(), base_name) {
            Some(s) => {
                insert_ascending(&mut v, s);
                proof {
                    v0.to_multiset_ensures();
                    before.to_multiset_ensures();
                    assert(v0.push(s).to_multiset() == v0.to_multiset().insert(s));
                    assert(before.push(s).to_multiset() == before.to_multiset().insert(s));
                }
            },
            None => {},
        }
        i = i + 1;
    }
    assert(texts(names@).subrange(0, i as int) =~= texts(names@));
    v
}

/// The latest of some sequence numbers, or the earliest; 0 where there is none.
pub open spec fn chosen(all: Seq<u64>, latest: bool, s: u64) -> bool {
    if all.len() == 0 {
        s == 0
    } else {
        &&& all.contains(s)
        &&& forall|i: int|
            0 <= i < all.len() ==> if latest {
                #[trigger] all[i] <= s
            } else {
                all[i] >= s
            }
    }
}

/// The sequence number of the latest or of the earliest segment of the channel at
/// `base_name`; 0 where it has none.
pub fn find_sequence(names: &Vec<String>, base_name: &str, latest: bool) -> (s: u64)
    ensures
        chosen(sequences_in(texts(names@), base_name@), latest, s),
{
    let v = find_all_sequences(names, base_name);
    let ghost all = sequences_in(texts(names@), base_name@);
    proof {
        v@.to_multiset_ensures();
        all.to_multiset_ensures();
        assert(v@.len() == all.len());
        assert forall|i: int| 0 <= i < all.len() implies v@.contains(#[trigger] all[i]) by {
            assert(all.to_multiset().contains(all[i]));
            assert(v@.to_multiset().contains(all[i]));
        }
        assert forall|i: int| 0 <= i < v@.len() implies all.contains(#[trigger] v@[i]) by {
            assert(v@.to_multiset().contains(v@[i]));
            assert(all.to_multiset().contains(v@[i]));
        }
    }
    let n = v.len();
    if n == 0 {
        return 0;
    }
    let s = if latest {
        v[n - 1]
    } else {
        v[0]
    };
    assert forall|i: int| 0 <= i < all.len() implies if latest {
        #[trigger] all[i] <= s
    } else {
        all[i] >= s
    } by {
        assert(v@.contains(all[i]));
        let j = choose|j: int| 0 <= j < v@.len() && v@[j] == all[i];
        assert(v@[0] <= v@[j] <= v@[n - 1]);
    }
    s
}

/// The sequence number of the earliest segment; 0 where there is none.
pub fn find_earliest_sequence(names: &Vec<String>, base_name: &str) -> (s: u64)
    ensures
        chosen(sequences_in(texts(names@), base_name@), false, s),
{
    find_sequence(names, base_name, false)
}

/// The sequence number of the latest segment; 0 where there is none.
pub fn find_latest_sequence(names: &Vec<String>, base_name: &str) -> (s: u64)
    ensures
        chosen(sequences_in(texts(names@), base_name@), true, s),
{
    find_sequence(names, base_name, true)
}

/// A segment is found under the name that it is given, and its name is not taken for
/// that of a segment that is being laid out.
pub proof fn law_segment_name_round_trip(base: Seq<char>, sequence: u64)
    ensures
        sequence_of(segment_name(base, sequence), base) == Some(sequence),
        !partial_of(segment_name(base, sequence), base),
{
    let name = segment_name(base, sequence);
    let digits = decimal_text(sequence as nat);
    crate::text::law_decimal_round_trip(sequence);
    crate::text::lemma_decimal_text_spells(sequence as nat);
    if sequence == 0 {
        assert(name.len() != (base + partial_suffix()).len());
    } else {
        assert(name.subrange(0, base.len() as int) =~= base);
        assert(behind_dot(name, base) =~= digits);
        assert(name.len() != base.len());
        let p = base + partial_suffix();
        if name == p {
            assert(p[base.len() as int + 1] == 'p');
            assert(name[base.len() as int + 1] == digits[0]);
            assert(is_digit(digits[0]));
        }
        if ends_partial(digits) {
            let s = digits.subrange(digits.len() - 8, digits.len() as int);
            assert(s[0] == '.');
            assert(is_digit(digits[digits.len() - 8]));
        }
    }
}

/// A segment that is being laid out is recognised as such, and is not found as a
/// segment.
#[verifier::spinoff_prover]
#[verifier::rlimit(40)]
pub proof fn law_partial_name_is_set_apart(base: Seq<char>, sequence: u64)
    ensures
        partial_of(partial_name(base, sequence), base),
        sequence_of(partial_name(base, sequence), base) is None,
{
    let name = partial_name(base, sequence);
    let digits = decimal_text(sequence as nat);
    crate::text::law_decimal_round_trip(sequence);
    crate::text::lemma_decimal_text_spells(sequence as nat);
    assert(name.subrange(0, base.len() as int) =~= base);
    let rest = behind_dot(name, base);
    assert(name.len() != base.len());
    if sequence == 0 {
        assert(rest[0] == 'p');
        assert(without_plus(rest) == rest);
        assert(!is_digit(rest[0]));
    } else {
        assert(rest =~= digits + partial_suffix());
        assert(rest.subrange(rest.len() - 8, rest.len() as int) =~= partial_suffix());
        assert(without_partial(rest) =~= digits);
        assert(rest[0] == digits[0]);
        assert(is_digit(digits[0]));
        assert(without_plus(rest) == rest);
        assert(rest[digits.len() as int] == '.');
        assert(!is_digit(rest[digits.len() as int]));
    }
}

} // verus!
