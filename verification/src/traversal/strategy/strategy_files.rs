use crate::models::card::Rank;
use crate::traversal::strategy::strategy_branch::StrategyHubKey;
use base64::Engine;
use vstd::prelude::*;

verus! {

/// `suited` for a suited hand, `offsuit` otherwise.
pub open spec fn suited_text(is_suited: bool) -> Seq<char> {
    if is_suited {
        "suited"@
    } else {
        "offsuit"@
    }
}

/// `sb` for the small blind, `bb` for the big blind.
pub open spec fn blind_text(is_sb: bool) -> Seq<char> {
    if is_sb {
        "sb"@
    } else {
        "bb"@
    }
}

/// The stem of the file of a strategy branch: the two rank letters, the
/// suitedness and the blind, joined by `_`, such as `T_J_suited_sb`.
pub open spec fn strategy_file_stem_spec(k: StrategyHubKey) -> Seq<char> {
    seq![k.low_rank.spec_char()] + "_"@ + seq![k.high_rank.spec_char()] + "_"@ + suited_text(k.is_suited)
        + "_"@ + blind_text(k.is_sb)
}

/// The parts of a text between its `_` characters; a text without one is a
/// single part.
pub open spec fn split_parts(s: Seq<char>) -> Seq<Seq<char>>
    decreases s.len(),
{
    if s.len() == 0 {
        seq![Seq::empty()]
    } else {
        let p = split_parts(s.drop_last());
        if s.last() == '_' {
            p.push(Seq::empty())
        } else {
            p.update(p.len() - 1, p.last().push(s.last()))
        }
    }
}

/// The first rank, by number below `k`, whose letter is `c`.
pub open spec fn rank_with_char(c: char, k: int) -> Option<Rank>
    decreases k,
{
    if k <= 0 {
        None
    } else {
        match rank_with_char(c, k - 1) {
            Some(r) => Some(r),
            None => if Rank::spec_from_int((k - 1) as u8).spec_char() == c {
                Some(Rank::spec_from_int((k - 1) as u8))
            } else {
                None
            },
        }
    }
}

/// The rank a text of one rank letter names.
pub open spec fn rank_of_text(t: Seq<char>) -> Option<Rank> {
    if t.len() == 1 {
        rank_with_char(t[0], 13)
    } else {
        None
    }
}

/// The strategy key a file stem names: four parts split at `_`, two rank
/// letters, `suited` for a suited hand (anything else is offsuit) and `sb`
/// for the small blind (anything else is the big blind); `None` for another
/// number of parts or a part that is no rank letter.
pub open spec fn parse_stem_spec(s: Seq<char>) -> Option<StrategyHubKey> {
    let p = split_parts(s);
    if p.len() != 4 {
        None
    } else {
        match (rank_of_text(p[0]), rank_of_text(p[1])) {
            (Some(low_rank), Some(high_rank)) => Some(
                StrategyHubKey {
                    low_rank,
                    high_rank,
                    is_suited: p[2] == "suited"@,
                    is_sb: p[3] == "sb"@,
                },
            ),
            _ => None,
        }
    }
}

/// A text with every `.json` at its end taken off.
pub open spec fn without_json_suffixes(s: Seq<char>) -> Seq<char>
    decreases s.len(),
{
    if s.len() >= 5 && s.subrange(s.len() - 5, s.len() as int) == ".json"@ {
        without_json_suffixes(s.subrange(0, s.len() - 5))
    } else {
        s
    }
}

/// The standard base64 decoding of a text, `None` when it is no valid base64.
pub uninterp spec fn base64_standard_decode(s: Seq<char>) -> Option<Seq<u8>>;

/// The standard base64 encoding of some bytes, with padding.
pub uninterp spec fn base64_standard_encode(b: Seq<u8>) -> Seq<char>;

/// Decodes a base64 text.
///
/// Trusted: `base64::Engine::decode` with the standard engine
/// (`base64::engine::general_purpose::STANDARD`) returns the decoded bytes, or
/// an error for an invalid text; the result is a function of the text alone.
/// What the decoding is, is not stated here; it is named.
#[verifier::external_body]
fn decode_standard(s: &str) -> (r: Option<Vec<u8>>)
    ensures
        r is None <==> base64_standard_decode(s@) is None,
        r matches Some(v) ==> base64_standard_decode(s@) == Some(v@),
{
    base64::engine::general_purpose::STANDARD.decode(s).ok()
}

/// Encodes bytes as base64.
///
/// Trusted: `base64::Engine::encode` with the standard engine returns the
/// padded base64 text of the bytes, a function of the bytes alone; it panics
/// only when the length of the text overflows `usize`, which the bound on the
/// input rules out. What the encoding is, is not stated here; it is named.
#[verifier::external_body]
fn encode_standard(b: &Vec<u8>) -> (s: String)
    requires
        b@.len() <= usize::MAX / 2,
    ensures
        s@ == base64_standard_encode(b@),
{
    base64::engine::general_purpose::STANDARD.encode(b)
}

/// The file stem of a strategy branch (see `strategy_file_stem_spec`).
pub fn strategy_file_stem(key: &StrategyHubKey) -> (s: String)
    ensures
        s@ == strategy_file_stem_spec(*key),
{
    let mut s = String::from_str(key.low_rank.to_str());
    s.append("_");
    s.append(key.high_rank.to_str());
    s.append("_");
    s.append(
        if key.is_suited {
            "suited"
        } else {
            "offsuit"
        },
    );
    s.append("_");
    s.append(
        if key.is_sb {
            "sb"
        } else {
            "bb"
        },
    );
    s
}

/// The characters of a text.
fn chars_of(s: &str) -> (v: Vec<char>)
    ensures
        v@ == s@,
{
    let n = s.unicode_len();
    let mut v: Vec<char> = Vec::new();
    let mut i: usize = 0;
    while i < n
        invariant
            i <= n,
            n == s@.len(),
            v@ == s@.take(i as int),
        decreases n - i,
    {
        v.push(s.get_char(i));
        i = i + 1;
        assert(v@ == s@.take(i as int));
    }
    assert(s@.take(n as int) == s@);
    v
}

/// Whether some characters are those of a text.
fn chars_equal(v: &Vec<char>, s: &str) -> (b: bool)
    ensures
        b == (v@ == s@),
{
    let n = s.unicode_len();
    if v.len() != n {
        return false;
    }
    let mut i: usize = 0;
    while i < n
        invariant
            i <= n,
            n == s@.len(),
            v@.len() == n,
            forall|j: int| 0 <= j < i ==> v@[j] == s@[j],
        decreases n - i,
    {
        if v[i] != s.get_char(i) {
            return false;
        }
        i = i + 1;
    }
    assert(v@ == s@);
    true
}

/// The rank whose letter is `c` (see `rank_with_char`).
fn rank_from_char(c: char) -> (r: Option<Rank>)
    ensures
        r == rank_with_char(c, 13),
{
    let mut k: u8 = 0;
    while k < 13
        invariant
            k <= 13,
            rank_with_char(c, k as int) is None,
        decreases 13 - k,
    {
        let rank = Rank::from_int(k);
        let letter = rank.to_str();
        if letter.get_char(0) == c {
            assert(rank_with_char(c, k + 1) == Some(rank));
            proof {
                lemma_rank_with_char_found(c, k + 1, 13);
            }
            return Some(rank);
        }
        k = k + 1;
    }
    None
}

proof fn lemma_rank_with_char_found(c: char, k: int, n: int)
    requires
        0 <= k <= n,
        rank_with_char(c, k) is Some,
    ensures
        rank_with_char(c, n) == rank_with_char(c, k),
    decreases n - k,
{
    if k < n {
        lemma_rank_with_char_found(c, k, n - 1);
    }
}

proof fn lemma_split_nonempty(s: Seq<char>)
    ensures
        split_parts(s).len() >= 1,
    decreases s.len(),
{
    if s.len() > 0 {
        lemma_split_nonempty(s.drop_last());
    }
}

/// The strategy key a file stem names (see `parse_stem_spec`).
fn parse_stem_chars(chars: &Vec<char>) -> (k: Option<StrategyHubKey>)
    ensures
        k == parse_stem_spec(chars@),
{
    let mut parts: Vec<Vec<char>> = Vec::new();
    parts.push(Vec::new());
    let mut i: usize = 0;
    while i < chars.len()
        invariant
            i <= chars@.len(),
            parts@.len() == split_parts(chars@.take(i as int)).len(),
            forall|j: int| 0 <= j < parts@.len() ==> (#[trigger] parts@[j])@ == split_parts(chars@.take(i as int))[j],
        decreases chars@.len() - i,
    {
        let c = chars[i];
        let ghost before = chars@.take(i as int);
        let ghost after = chars@.take(i + 1);
        proof {
            assert(after.drop_last() == before);
            assert(after.last() == c);
            lemma_split_nonempty(before);
        }
        if c == '_' {
            parts.push(Vec::new());
        } else {
            let mut last = parts.pop().unwrap();
            last.push(c);
            parts.push(last);
        }
        i = i + 1;
        proof {
            assert forall|j: int| 0 <= j < parts@.len() implies (#[trigger] parts@[j])@ == split_parts(after)[j] by {}
        }
    }
    assert(chars@.take(chars@.len() as int) == chars@);
    if parts.len() != 4 {
        return None;
    }
    if parts[0].len() != 1 || parts[1].len() != 1 {
        return None;
    }
    let low = rank_from_char(parts[0][0]);
    let high = rank_from_char(parts[1][0]);
    match (low, high) {
        (Some(low_rank), Some(high_rank)) => {
            let is_suited = chars_equal(&parts[2], "suited");
            let is_sb = chars_equal(&parts[3], "sb");
            Some(StrategyHubKey { low_rank, high_rank, is_suited, is_sb })
        },
        _ => None,
    }
}

/// The strategy key a file stem names (see `parse_stem_spec`).
pub fn parse_strategy_file_stem(stem: &str) -> (k: Option<StrategyHubKey>)
    ensures
        k == parse_stem_spec(stem@),
{
    let chars = chars_of(stem);
    parse_stem_chars(&chars)
}

/// Whether the first `n` characters end with `.json`.
fn ends_with_json(chars: &Vec<char>, n: usize) -> (b: bool)
    requires
        n <= chars@.len(),
    ensures
        b == (n >= 5 && chars@.take(n as int).subrange(n - 5, n as int) == ".json"@),
{
    proof {
        reveal_strlit(".json");
    }
    if n < 5 {
        return false;
    }
    let ghost t = chars@.take(n as int).subrange(n - 5, n as int);
    let b = chars[n - 5] == '.' && chars[n - 4] == 'j' && chars[n - 3] == 's' && chars[n - 2] == 'o'
        && chars[n - 1] == 'n';
    assert(b ==> t == ".json"@);
    assert(t == ".json"@ ==> t[0] == '.' && t[1] == 'j' && t[2] == 's' && t[3] == 'o' && t[4] == 'n');
    b
}

/// The strategy key a file stem names once every `.json` at its end is
/// taken off (see `without_json_suffixes` and `parse_stem_spec`).
pub fn strategy_key_of_file_stem(stem: &str) -> (k: Option<StrategyHubKey>)
    ensures
        k == parse_stem_spec(without_json_suffixes(stem@)),
{
    let chars = chars_of(stem);
    let mut n: usize = chars.len();
    assert(chars@.take(n as int) == chars@);
    while ends_with_json(&chars, n)
        invariant
            n <= chars@.len(),
            without_json_suffixes(chars@.take(n as int)) == without_json_suffixes(stem@),
            chars@ == stem@,
        decreases n,
    {
        proof {
            assert(chars@.take(n as int).subrange(0, n - 5) == chars@.take(n - 5));
        }
        n = n - 5;
    }
    let mut kept: Vec<char> = Vec::new();
    let mut i: usize = 0;
    while i < n
        invariant
            i <= n <= chars@.len(),
            kept@ == chars@.take(i as int),
        decreases n - i,
    {
        kept.push(chars[i]);
        i = i + 1;
        assert(kept@ == chars@.take(i as int));
    }
    parse_stem_chars(&kept)
}

/// The base64 texts of some information-set keys, in order.
pub fn encode_infoset_keys(keys: &Vec<Vec<u8>>) -> (texts: Vec<String>)
    requires
        forall|i: int| 0 <= i < keys@.len() ==> (#[trigger] keys@[i])@.len() <= usize::MAX / 2,
    ensures
        texts@.len() == keys@.len(),
        forall|i: int| 0 <= i < keys@.len() ==> (#[trigger] texts@[i])@ == base64_standard_encode(keys@[i]@),
{
    let mut texts: Vec<String> = Vec::new();
    let mut i: usize = 0;
    while i < keys.len()
        invariant
            i <= keys@.len(),
            forall|j: int| 0 <= j < keys@.len() ==> (#[trigger] keys@[j])@.len() <= usize::MAX / 2,
            texts@.len() == i,
            forall|j: int| 0 <= j < i ==> (#[trigger] texts@[j])@ == base64_standard_encode(keys@[j]@),
        decreases keys@.len() - i,
    {
        let text = encode_standard(&keys[i]);
        texts.push(text);
        i = i + 1;
    }
    texts
}

/// The information-set keys of some base64 texts, in order; `None` as soon
/// as one text is no valid base64.
pub fn decode_infoset_keys(texts: &Vec<String>) -> (keys: Option<Vec<Vec<u8>>>)
    ensures
        keys is Some <==> forall|i: int| 0 <= i < texts@.len() ==> (#[trigger] base64_standard_decode(texts@[i]@)) is Some,
        keys matches Some(v) ==> v@.len() == texts@.len() && forall|i: int|
            0 <= i < texts@.len() ==> base64_standard_decode(texts@[i]@) == Some((#[trigger] v@[i])@),
{
    let mut keys: Vec<Vec<u8>> = Vec::new();
    let mut i: usize = 0;
    while i < texts.len()
        invariant
            i <= texts@.len(),
            keys@.len() == i,
            forall|j: int| 0 <= j < i ==> base64_standard_decode(texts@[j]@) == Some((#[trigger] keys@[j])@),
        decreases texts@.len() - i,
    {
        match decode_standard(texts[i].as_str()) {
            Some(key) => {
                keys.push(key);
            },
            None => {
                assert(base64_standard_decode(texts@[i as int]@) is None);
                return None;
            },
        }
        i = i + 1;
    }
    assert forall|i: int| 0 <= i < texts@.len() implies (#[trigger] base64_standard_decode(texts@[i]@)) is Some by {
        assert(base64_standard_decode(texts@[i]@) == Some(keys@[i]@));
    }
    Some(keys)
}

proof fn lemma_split_word(s: Seq<char>, t: Seq<char>)
    requires
        forall|i: int| 0 <= i < t.len() ==> t[i] != '_',
    ensures
        split_parts(s + t) == split_parts(s).update(
            split_parts(s).len() - 1,
            split_parts(s).last() + t,
        ),
    decreases t.len(),
{
    lemma_split_nonempty(s);
    if t.len() == 0 {
        assert(s + t == s);
        assert(split_parts(s).last() + t == split_parts(s).last());
        assert(split_parts(s).update(split_parts(s).len() - 1, split_parts(s).last()) == split_parts(s));
    } else {
        let t2 = t.drop_last();
        lemma_split_word(s, t2);
        let whole = s + t;
        assert(whole.drop_last() == s + t2);
        assert(whole.last() == t.last());
        assert(whole.len() > 0);
        let big = split_parts(s);
        let p = split_parts(s + t2);
        assert(p == big.update(big.len() - 1, big.last() + t2));
        assert(p.len() == big.len());
        assert(p.last() == big.last() + t2);
        assert(t.last() != '_');
        assert(split_parts(whole) == p.update(p.len() - 1, p.last().push(whole.last())));
        assert(big.last() + t2 + seq![t.last()] == big.last() + t);
        assert((big.last() + t2).push(t.last()) == big.last() + t);
        assert(split_parts(whole) == big.update(big.len() - 1, big.last() + t));
    }
}

proof fn lemma_split_sep(s: Seq<char>)
    ensures
        split_parts(s + "_"@) == split_parts(s).push(Seq::empty()),
{
    reveal_strlit("_");
    assert((s + "_"@).drop_last() == s);
    assert((s + "_"@).last() == '_');
}

proof fn lemma_rank_char_roundtrip(r: Rank)
    ensures
        rank_with_char(r.spec_char(), 13) == Some(r),
        r.spec_char() != '_',
{
    reveal_with_fuel(rank_with_char, 14);
}

/// A strategy key's file stem names it again.
pub proof fn lemma_strategy_file_stem_roundtrip(k: StrategyHubKey)
    ensures
        parse_stem_spec(strategy_file_stem_spec(k)) == Some(k),
{
    reveal_strlit("suited");
    reveal_strlit("offsuit");
    reveal_strlit("sb");
    reveal_strlit("bb");
    lemma_rank_char_roundtrip(k.low_rank);
    lemma_rank_char_roundtrip(k.high_rank);
    let a = seq![k.low_rank.spec_char()];
    let b = seq![k.high_rank.spec_char()];
    let w3 = suited_text(k.is_suited);
    let w4 = blind_text(k.is_sb);
    assert(forall|i: int| 0 <= i < w3.len() ==> w3[i] != '_');
    assert(forall|i: int| 0 <= i < w4.len() ==> w4[i] != '_');
    let e = Seq::<char>::empty();
    assert(split_parts(e) == seq![e]);
    lemma_split_word(e, a);
    assert(e + a == a);
    assert(split_parts(a) == seq![a]);
    lemma_split_sep(a);
    let s1 = a + "_"@;
    lemma_split_word(s1, b);
    let s2 = s1 + b;
    assert(split_parts(s2) == seq![a, b]);
    lemma_split_sep(s2);
    let s3 = s2 + "_"@;
    lemma_split_word(s3, w3);
    let s4 = s3 + w3;
    assert(split_parts(s4) == seq![a, b, w3]);
    lemma_split_sep(s4);
    let s5 = s4 + "_"@;
    lemma_split_word(s5, w4);
    let s6 = s5 + w4;
    assert(split_parts(s6) == seq![a, b, w3, w4]);
    assert(s6 == strategy_file_stem_spec(k));
    assert(w3 == "suited"@ <==> k.is_suited);
    assert("bb"@[0] != "sb"@[0]);
    assert(w4 == "sb"@ <==> k.is_sb);
}

} // verus!
