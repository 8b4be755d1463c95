//! Host side: the toggle hotkey (parsing it from text and watching for it)
//! and the decision of what to send for each batch of captured events.
use crate::protocol::{KvmEvent, KvmPacket, PacketModel, PROTOCOL_VERSION};
use crate::client::windows_vk;
use crate::text::{
    is_decimal_digit, lowercase, parse_u16, parse_u16_spec, str_contains_char, str_eq, to_lowercase, trim, trim_str,
    u16_digits,
};
use std::collections::HashSet;
use vstd::prelude::*;
use vstd::std_specs::iter::IteratorSpec;

verus! {

broadcast use vstd::std_specs::hash::group_hash_axioms;

/// Key codes of the Linux input layer that a key name stands for.
pub open spec fn named_key_codes(n: Seq<char>) -> Option<Seq<u16>> {
    if n == "esc"@ || n == "escape"@ {
        Some(seq![1u16])
    } else if n == "meta"@ || n == "super"@ || n == "win"@ || n == "windows"@ || n == "mod"@ {
        Some(seq![125u16, 126u16])
    } else if n == "leftmeta"@ || n == "lmeta"@ || n == "lsuper"@ || n == "lwin"@ {
        Some(seq![125u16])
    } else if n == "rightmeta"@ || n == "rmeta"@ || n == "rsuper"@ || n == "rwin"@ {
        Some(seq![126u16])
    } else if n == "ctrl"@ || n == "control"@ {
        Some(seq![29u16, 97u16])
    } else if n == "leftctrl"@ || n == "lctrl"@ {
        Some(seq![29u16])
    } else if n == "rightctrl"@ || n == "rctrl"@ {
        Some(seq![97u16])
    } else if n == "alt"@ {
        Some(seq![56u16, 100u16])
    } else if n == "leftalt"@ || n == "lalt"@ {
        Some(seq![56u16])
    } else if n == "rightalt"@ || n == "ralt"@ || n == "altgr"@ {
        Some(seq![100u16])
    } else if n == "shift"@ {
        Some(seq![42u16, 54u16])
    } else if n == "leftshift"@ || n == "lshift"@ {
        Some(seq![42u16])
    } else if n == "rightshift"@ || n == "rshift"@ {
        Some(seq![54u16])
    } else if n == "space"@ || n == "spacebar"@ {
        Some(seq![57u16])
    } else if n == "enter"@ || n == "return"@ {
        Some(seq![28u16])
    } else if n == "tab"@ {
        Some(seq![15u16])
    } else if n == "capslock"@ || n == "caps"@ {
        Some(seq![58u16])
    } else if n == "a"@ {
        Some(seq![30u16])
    } else if n == "b"@ {
        Some(seq![48u16])
    } else if n == "c"@ {
        Some(seq![46u16])
    } else if n == "d"@ {
        Some(seq![32u16])
    } else if n == "e"@ {
        Some(seq![18u16])
    } else if n == "f"@ {
        Some(seq![33u16])
    } else if n == "g"@ {
        Some(seq![34u16])
    } else if n == "h"@ {
        Some(seq![35u16])
    } else if n == "i"@ {
        Some(seq![23u16])
    } else if n == "j"@ {
        Some(seq![36u16])
    } else if n == "k"@ {
        Some(seq![37u16])
    } else if n == "l"@ {
        Some(seq![38u16])
    } else if n == "m"@ {
        Some(seq![50u16])
    } else if n == "n"@ {
        Some(seq![49u16])
    } else if n == "o"@ {
        Some(seq![24u16])
    } else if n == "p"@ {
        Some(seq![25u16])
    } else if n == "q"@ {
        Some(seq![16u16])
    } else if n == "r"@ {
        Some(seq![19u16])
    } else if n == "s"@ {
        Some(seq![31u16])
    } else if n == "t"@ {
        Some(seq![20u16])
    } else if n == "u"@ {
        Some(seq![22u16])
    } else if n == "v"@ {
        Some(seq![47u16])
    } else if n == "w"@ {
        Some(seq![17u16])
    } else if n == "x"@ {
        Some(seq![45u16])
    } else if n == "y"@ {
        Some(seq![21u16])
    } else if n == "z"@ {
        Some(seq![44u16])
    } else {
        None
    }
}

fn named_key(n: &str) -> (r: Option<Vec<u16>>)
    ensures
        r matches Some(v) ==> named_key_codes(n@) == Some(v@),
        r is None ==> named_key_codes(n@) is None,
{
    if str_eq(n, "esc") || str_eq(n, "escape") {
        return Some(vec![1u16]);
    }
    if str_eq(n, "meta") || str_eq(n, "super") || str_eq(n, "win") || str_eq(n, "windows") || str_eq(n, "mod") {
        return Some(vec![125u16, 126u16]);
    }
    if str_eq(n, "leftmeta") || str_eq(n, "lmeta") || str_eq(n, "lsuper") || str_eq(n, "lwin") {
        return Some(vec![125u16]);
    }
    if str_eq(n, "rightmeta") || str_eq(n, "rmeta") || str_eq(n, "rsuper") || str_eq(n, "rwin") {
        return Some(vec![126u16]);
    }
    if str_eq(n, "ctrl") || str_eq(n, "control") {
        return Some(vec![29u16, 97u16]);
    }
    if str_eq(n, "leftctrl") || str_eq(n, "lctrl") {
        return Some(vec![29u16]);
    }
    if str_eq(n, "rightctrl") || str_eq(n, "rctrl") {
        return Some(vec![97u16]);
    }
    if str_eq(n, "alt") {
        return Some(vec![56u16, 100u16]);
    }
    if str_eq(n, "leftalt") || str_eq(n, "lalt") {
        return Some(vec![56u16]);
    }
    if str_eq(n, "rightalt") || str_eq(n, "ralt") || str_eq(n, "altgr") {
        return Some(vec![100u16]);
    }
    if str_eq(n, "shift") {
        return Some(vec![42u16, 54u16]);
    }
    if str_eq(n, "leftshift") || str_eq(n, "lshift") {
        return Some(vec![42u16]);
    }
    if str_eq(n, "rightshift") || str_eq(n, "rshift") {
        return Some(vec![54u16]);
    }
    if str_eq(n, "space") || str_eq(n, "spacebar") {
        return Some(vec![57u16]);
    }
    if str_eq(n, "enter") || str_eq(n, "return") {
        return Some(vec![28u16]);
    }
    if str_eq(n, "tab") {
        return Some(vec![15u16]);
    }
    if str_eq(n, "capslock") || str_eq(n, "caps") {
        return Some(vec![58u16]);
    }
    if str_eq(n, "a") {
        return Some(vec![30u16]);
    }
    if str_eq(n, "b") {
        return Some(vec![48u16]);
    }
    if str_eq(n, "c") {
        return Some(vec![46u16]);
    }
    if str_eq(n, "d") {
        return Some(vec![32u16]);
    }
    if str_eq(n, "e") {
        return Some(vec![18u16]);
    }
    if str_eq(n, "f") {
        return Some(vec![33u16]);
    }
    if str_eq(n, "g") {
        return Some(vec![34u16]);
    }
    if str_eq(n, "h") {
        return Some(vec![35u16]);
    }
    if str_eq(n, "i") {
        return Some(vec![23u16]);
    }
    if str_eq(n, "j") {
        return Some(vec![36u16]);
    }
    if str_eq(n, "k") {
        return Some(vec![37u16]);
    }
    if str_eq(n, "l") {
        return Some(vec![38u16]);
    }
    if str_eq(n, "m") {
        return Some(vec![50u16]);
    }
    if str_eq(n, "n") {
        return Some(vec![49u16]);
    }
    if str_eq(n, "o") {
        return Some(vec![24u16]);
    }
    if str_eq(n, "p") {
        return Some(vec![25u16]);
    }
    if str_eq(n, "q") {
        return Some(vec![16u16]);
    }
    if str_eq(n, "r") {
        return Some(vec![19u16]);
    }
    if str_eq(n, "s") {
        return Some(vec![31u16]);
    }
    if str_eq(n, "t") {
        return Some(vec![20u16]);
    }
    if str_eq(n, "u") {
        return Some(vec![22u16]);
    }
    if str_eq(n, "v") {
        return Some(vec![47u16]);
    }
    if str_eq(n, "w") {
        return Some(vec![17u16]);
    }
    if str_eq(n, "x") {
        return Some(vec![45u16]);
    }
    if str_eq(n, "y") {
        return Some(vec![21u16]);
    }
    if str_eq(n, "z") {
        return Some(vec![44u16]);
    }
    None
}

pub open spec fn unknown_key_message(name: Seq<char>) -> Seq<char> {
    "Unknown key name: '"@ + name + "'"@
}

/// The key codes that `name` stands for: a decimal key code, or one of the
/// known names, case and surrounding whitespace ignored.
pub open spec fn key_name_codes(name: Seq<char>) -> Result<Set<u16>, Seq<char>> {
    lowered_key_name_codes(to_lowercase(trim(name)), name)
}

pub open spec fn codes_result(r: Result<HashSet<u16>, String>) -> Result<Set<u16>, Seq<char>> {
    match r {
        Ok(s) => Ok(s@),
        Err(e) => Err(e@),
    }
}

/// The set holding exactly the given codes.
fn code_set(codes: &Vec<u16>) -> (s: HashSet<u16>)
    ensures
        s@ == codes@.to_set(),
{
    let mut s: HashSet<u16> = HashSet::new();
    let mut i: usize = 0;
    while i < codes.len()
        invariant
            i <= codes@.len(),
            forall|k: u16| s@.contains(k) <==> exists|j: int| 0 <= j < i && codes@[j] == k,
        decreases codes@.len() - i,
    {
        let c = codes[i];
        s.insert(c);
        assert forall|k: u16| s@.contains(k) <==> exists|j: int| 0 <= j < i + 1 && codes@[j] == k by {
            if k == c {
                assert(codes@[i as int] == k);
            }
        }
        i = i + 1;
    }
    assert(s@ =~= codes@.to_set());
    s
}

/// The key codes that `lower` (the lowercased, trimmed `name`) stands for.
pub open spec fn lowered_key_name_codes(lower: Seq<char>, name: Seq<char>) -> Result<Set<u16>, Seq<char>> {
    match parse_u16_spec(lower) {
        Some(code) => Ok(set![code]),
        None => match named_key_codes(lower) {
            Some(codes) => Ok(codes.to_set()),
            None => Err(unknown_key_message(name)),
        },
    }
}

pub fn key_name_to_codes(name: &str) -> (r: Result<HashSet<u16>, String>)
    ensures
        codes_result(r) == key_name_codes(name@),
{
    let lower = lowercase(trim_str(name));
    lowered_key_name_to_codes(lower.as_str(), name)
}

/// The key codes for a key name already trimmed and lowercased (`lower`);
/// `name` is the name as given, for the error message.
pub fn lowered_key_name_to_codes(lower: &str, name: &str) -> (r: Result<HashSet<u16>, String>)
    ensures
        codes_result(r) == lowered_key_name_codes(lower@, name@),
{
    if let Some(code) = parse_u16(lower) {
        let mut s: HashSet<u16> = HashSet::new();
        s.insert(code);
        assert(s@ =~= set![code]);
        return Ok(s);
    }
    match named_key(lower) {
        Some(codes) => Ok(code_set(&codes)),
        None => {
            let mut msg = "Unknown key name: '".to_owned();
            msg.append(name);
            msg.append("'");
            Err(msg)
        },
    }
}

/// `s` cut at every `sep`, as `str::split` cuts it: one more piece than
/// there are separators, empty pieces included.
pub open spec fn split_chars(s: Seq<char>, sep: char) -> Seq<Seq<char>>
    decreases s.len(),
{
    if s.len() == 0 {
        seq![Seq::empty()]
    } else {
        let parts = split_chars(s.drop_last(), sep);
        if s.last() == sep {
            parts.push(Seq::empty())
        } else {
            parts.update(parts.len() - 1, parts.last().push(s.last()))
        }
    }
}

/// The key names of a hotkey: split at `+` if there is one, else at `,`.
pub open spec fn hotkey_parts(s: Seq<char>) -> Seq<Seq<char>> {
    if s.contains('+') {
        split_chars(s, '+')
    } else if s.contains(',') {
        split_chars(s, ',')
    } else {
        seq![s]
    }
}

/// `acc` with the code set of `part` added, unless `part` is blank.
pub open spec fn collect_one(acc: Seq<Set<u16>>, part: Seq<char>) -> Result<Seq<Set<u16>>, Seq<char>> {
    let t = trim(part);
    if t.len() == 0 {
        Ok(acc)
    } else {
        match key_name_codes(t) {
            Ok(c) => Ok(acc.push(c)),
            Err(e) => Err(e),
        }
    }
}

/// The code sets of the non-blank names, in order, or the first error.
pub open spec fn collect_hotkey(parts: Seq<Seq<char>>) -> Result<Seq<Set<u16>>, Seq<char>>
    decreases parts.len(),
{
    if parts.len() == 0 {
        Ok(Seq::empty())
    } else {
        match collect_hotkey(parts.drop_last()) {
            Err(e) => Err(e),
            Ok(acc) => collect_one(acc, parts.last()),
        }
    }
}

pub open spec fn empty_hotkey_message() -> Seq<char> {
    "Hotkey cannot be empty"@
}

/// A hotkey: one set of key codes per name, each set satisfied by any one
/// of its keys.
pub open spec fn hotkey_spec(s: Seq<char>) -> Result<Seq<Set<u16>>, Seq<char>> {
    match collect_hotkey(hotkey_parts(s)) {
        Err(e) => Err(e),
        Ok(sets) => if sets.len() == 0 {
            Err(empty_hotkey_message())
        } else {
            Ok(sets)
        },
    }
}

pub open spec fn sets_view(v: Seq<HashSet<u16>>) -> Seq<Set<u16>> {
    v.map_values(|h: HashSet<u16>| h@)
}

pub open spec fn hotkey_result(r: Result<Vec<HashSet<u16>>, String>) -> Result<Seq<Set<u16>>, Seq<char>> {
    match r {
        Ok(v) => Ok(sets_view(v@)),
        Err(e) => Err(e@),
    }
}

proof fn lemma_split_without_sep(s: Seq<char>, sep: char)
    requires
        !s.contains(sep),
    ensures
        split_chars(s, sep) == seq![s],
    decreases s.len(),
{
    if s.len() > 0 {
        assert(!s.drop_last().contains(sep)) by {
            if s.drop_last().contains(sep) {
                let j = choose|j: int| 0 <= j < s.drop_last().len() && s.drop_last()[j] == sep;
                assert(s[j] == sep);
            }
        }
        lemma_split_without_sep(s.drop_last(), sep);
        assert(s.last() != sep) by {
            assert(s[s.len() - 1] == s.last());
        }
        assert(s.drop_last().push(s.last()) =~= s);
    } else {
        assert(s =~= Seq::<char>::empty());
    }
}

pub open spec fn is_prefix_of<A>(a: Seq<A>, b: Seq<A>) -> bool {
    a.len() <= b.len() && forall|k: int| 0 <= k < a.len() ==> a[k] == b[k]
}

/// The finished pieces of a prefix are the first pieces of the whole.
proof fn lemma_split_prefix(s: Seq<char>, sep: char, j: int)
    requires
        0 <= j <= s.len(),
    ensures
        is_prefix_of(split_chars(s.subrange(0, j), sep).drop_last(), split_chars(s, sep)),
    decreases s.len() - j,
{
    if j == s.len() {
        assert(s.subrange(0, j) =~= s);
        lemma_split_nonempty(s, sep);
    } else {
        lemma_split_prefix(s, sep, j + 1);
        let pre = s.subrange(0, j + 1);
        assert(pre.drop_last() =~= s.subrange(0, j));
        let a = split_chars(s.subrange(0, j), sep);
        let b = split_chars(pre, sep);
        lemma_split_nonempty(s.subrange(0, j), sep);
        lemma_split_nonempty(pre, sep);
        assert(is_prefix_of(a.drop_last(), b.drop_last()));
        let whole = split_chars(s, sep);
        assert forall|k: int| 0 <= k < a.drop_last().len() implies a.drop_last()[k] == whole[k] by {
            assert(a.drop_last()[k] == b.drop_last()[k]);
        }
    }
}

/// An error in the first pieces is the error of the whole.
proof fn lemma_collect_error_sticks(ps: Seq<Seq<char>>, qs: Seq<Seq<char>>)
    requires
        is_prefix_of(ps, qs),
        collect_hotkey(ps) is Err,
    ensures
        collect_hotkey(qs) == collect_hotkey(ps),
    decreases qs.len(),
{
    if qs.len() > ps.len() {
        assert(is_prefix_of(ps, qs.drop_last()));
        lemma_collect_error_sticks(ps, qs.drop_last());
    } else {
        assert(ps =~= qs);
    }
}

fn push_hotkey_part(result: &mut Vec<HashSet<u16>>, part: &str) -> (r: Result<(), String>)
    ensures
        r is Ok ==> collect_one(sets_view(old(result)@), part@) == Ok::<Seq<Set<u16>>, Seq<char>>(
            sets_view(final(result)@),
        ),
        r matches Err(e) ==> collect_one(sets_view(old(result)@), part@) == Err::<Seq<Set<u16>>, Seq<char>>(e@),
{
    let trimmed = trim_str(part);
    if trimmed.unicode_len() == 0 {
        return Ok(());
    }
    match key_name_to_codes(trimmed) {
        Ok(codes) => {
            let ghost before = result@;
            result.push(codes);
            assert(sets_view(result@) =~= sets_view(before).push(codes@));
            Ok(())
        },
        Err(e) => Err(e),
    }
}

proof fn lemma_split_nonempty(s: Seq<char>, sep: char)
    ensures
        split_chars(s, sep).len() >= 1,
    decreases s.len(),
{
    if s.len() > 0 {
        lemma_split_nonempty(s.drop_last(), sep);
    }
}

/// The names `parts` written one after another with `sep` between them.
pub open spec fn join_with(parts: Seq<Seq<char>>, sep: char) -> Seq<char>
    decreases parts.len(),
{
    if parts.len() <= 1 {
        if parts.len() == 0 { Seq::empty() } else { parts[0] }
    } else {
        join_with(parts.drop_last(), sep).push(sep) + parts.last()
    }
}

proof fn lemma_split_after_sep(x: Seq<char>, y: Seq<char>, sep: char)
    requires
        !y.contains(sep),
    ensures
        split_chars(x.push(sep) + y, sep) == split_chars(x, sep).push(y),
    decreases y.len(),
{
    if y.len() == 0 {
        assert(y =~= Seq::<char>::empty());
        assert(x.push(sep) + y =~= x.push(sep));
        assert(x.push(sep).drop_last() =~= x);
    } else {
        let y0 = y.drop_last();
        assert(!y0.contains(sep)) by {
            if y0.contains(sep) {
                let j = choose|j: int| 0 <= j < y0.len() && y0[j] == sep;
                assert(y[j] == sep);
            }
        }
        lemma_split_after_sep(x, y0, sep);
        assert(y.last() != sep) by {
            assert(y[y.len() - 1] == y.last());
        }
        let whole = x.push(sep) + y;
        assert(whole.drop_last() =~= x.push(sep) + y0);
        assert(whole.last() == y.last());
        lemma_split_nonempty(x, sep);
        assert(y0.push(y.last()) =~= y);
        assert(split_chars(whole, sep) =~= split_chars(x, sep).push(y));
    }
}

proof fn lemma_split_join(parts: Seq<Seq<char>>, sep: char)
    requires
        parts.len() >= 1,
        forall|i: int| 0 <= i < parts.len() ==> !(#[trigger] parts[i]).contains(sep),
    ensures
        split_chars(join_with(parts, sep), sep) == parts,
        parts.len() >= 2 ==> join_with(parts, sep).contains(sep),
    decreases parts.len(),
{
    if parts.len() == 1 {
        lemma_split_without_sep(parts[0], sep);
        assert(seq![parts[0]] =~= parts);
    } else {
        let prev = parts.drop_last();
        assert forall|i: int| 0 <= i < prev.len() implies !(#[trigger] prev[i]).contains(sep) by {
            assert(prev[i] == parts[i]);
        }
        lemma_split_join(prev, sep);
        assert(!parts.last().contains(sep)) by {
            assert(parts[parts.len() - 1] == parts.last());
        }
        lemma_split_after_sep(join_with(prev, sep), parts.last(), sep);
        assert(prev.push(parts.last()) =~= parts);
        let j = join_with(prev, sep);
        let whole = j.push(sep) + parts.last();
        assert(whole[j.len() as int] == sep);
    }
}

proof fn lemma_collect_known(parts: Seq<Seq<char>>)
    requires
        forall|i: int| 0 <= i < parts.len() ==> trim(#[trigger] parts[i]).len() > 0 && key_name_codes(trim(parts[i])) is Ok,
    ensures
        collect_hotkey(parts) == Ok::<Seq<Set<u16>>, Seq<char>>(
            Seq::new(parts.len(), |i: int| key_name_codes(trim(parts[i]))->Ok_0),
        ),
    decreases parts.len(),
{
    if parts.len() == 0 {
        assert(Seq::new(parts.len(), |i: int| key_name_codes(trim(parts[i]))->Ok_0) =~= Seq::<Set<u16>>::empty());
    } else {
        let prev = parts.drop_last();
        assert forall|i: int| 0 <= i < prev.len() implies trim(#[trigger] prev[i]).len() > 0 && key_name_codes(trim(prev[i])) is Ok by {
            assert(prev[i] == parts[i]);
        }
        lemma_collect_known(prev);
        let last = parts[parts.len() - 1];
        assert(parts.last() == last);
        assert(trim(last).len() > 0 && key_name_codes(trim(last)) is Ok);
        assert(Seq::new(prev.len(), |i: int| key_name_codes(trim(prev[i]))->Ok_0).push(key_name_codes(trim(last))->Ok_0)
            =~= Seq::new(parts.len(), |i: int| key_name_codes(trim(parts[i]))->Ok_0));
    }
}

/// A hotkey written as key names joined by `+` (names free of `+`), or by
/// `,` (names free of both; a single name is free of both), each of them a
/// known key name, is the code sets of those names, one per name, in the
/// order written.
pub proof fn lemma_hotkey_of_joined_names(parts: Seq<Seq<char>>, sep: char)
    requires
        parts.len() >= 1,
        sep == '+' || sep == ',',
        forall|i: int| 0 <= i < parts.len() ==> !(#[trigger] parts[i]).contains('+'),
        sep == ',' || parts.len() == 1 ==> forall|i: int| 0 <= i < parts.len() ==> !(#[trigger] parts[i]).contains(','),
        forall|i: int| 0 <= i < parts.len() ==> trim(#[trigger] parts[i]).len() > 0 && key_name_codes(trim(parts[i])) is Ok,
    ensures
        hotkey_spec(join_with(parts, sep)) == Ok::<Seq<Set<u16>>, Seq<char>>(
            Seq::new(parts.len(), |i: int| key_name_codes(trim(parts[i]))->Ok_0),
        ),
{
    let s = join_with(parts, sep);
    lemma_split_join(parts, sep);
    if parts.len() == 1 {
        assert(s == parts[0]);
        assert(parts =~= seq![parts[0]]);
        if s.contains('+') {
            lemma_split_without_sep(s, '+');
        } else if s.contains(',') {
            lemma_split_without_sep(s, ',');
        }
        assert(hotkey_parts(s) == parts);
    } else if sep == '+' {
        assert(hotkey_parts(s) == parts);
    } else {
        assert(!s.contains('+')) by {
            lemma_join_free_of(parts, sep, '+');
        }
        assert(hotkey_parts(s) == parts);
    }
    lemma_collect_known(parts);
}

proof fn lemma_join_free_of(parts: Seq<Seq<char>>, sep: char, c: char)
    requires
        sep != c,
        forall|i: int| 0 <= i < parts.len() ==> !(#[trigger] parts[i]).contains(c),
    ensures
        !join_with(parts, sep).contains(c),
    decreases parts.len(),
{
    if parts.len() == 1 {
        assert(!parts[0].contains(c));
    } else if parts.len() >= 2 {
        let prev = parts.drop_last();
        assert forall|i: int| 0 <= i < prev.len() implies !(#[trigger] prev[i]).contains(c) by {
            assert(prev[i] == parts[i]);
        }
        lemma_join_free_of(prev, sep, c);
        let j = join_with(prev, sep);
        let l = parts.last();
        assert(!l.contains(c)) by {
            assert(parts[parts.len() - 1] == l);
        }
        let whole = j.push(sep) + l;
        if whole.contains(c) {
            let k = choose|k: int| 0 <= k < whole.len() && whole[k] == c;
            if k < j.len() {
                assert(j[k] == c);
            } else if k > j.len() {
                assert(l[k - j.len() - 1] == c);
            }
        }
    }
}

/// Parses a hotkey such as `meta+esc`, `ctrl,alt,k` or `125,1`.
pub fn parse_hotkey(hotkey_str: &str) -> (r: Result<Vec<HashSet<u16>>, String>)
    ensures
        hotkey_result(r) == hotkey_spec(hotkey_str@),
{
    let sep = if str_contains_char(hotkey_str, '+') {
        '+'
    } else {
        ','
    };
    proof {
        if !hotkey_str@.contains('+') && !hotkey_str@.contains(',') {
            lemma_split_without_sep(hotkey_str@, ',');
        }
    }
    assert(hotkey_parts(hotkey_str@) == split_chars(hotkey_str@, sep));
    let n = hotkey_str.unicode_len();
    let mut result: Vec<HashSet<u16>> = Vec::new();
    let mut start: usize = 0;
    let mut i: usize = 0;
    let ghost mut done: Seq<Seq<char>> = Seq::empty();
    assert(hotkey_str@.subrange(0, 0) =~= Seq::<char>::empty());
    assert(sets_view(result@) =~= Seq::<Set<u16>>::empty());
    while i < n
        invariant
            n == hotkey_str@.len(),
            hotkey_parts(hotkey_str@) == split_chars(hotkey_str@, sep),
            start <= i <= n,
            split_chars(hotkey_str@.subrange(0, i as int), sep) == done.push(
                hotkey_str@.subrange(start as int, i as int),
            ),
            collect_hotkey(done) == Ok::<Seq<Set<u16>>, Seq<char>>(sets_view(result@)),
        decreases n - i,
    {
        let pre = Ghost(hotkey_str@.subrange(0, i as int + 1));
        assert(pre@.drop_last() =~= hotkey_str@.subrange(0, i as int));
        if hotkey_str.get_char(i) == sep {
            let part = hotkey_str.substring_char(start, i);
            let ghost old_done = done;
            proof {
                done = done.push(part@);
                assert(done.drop_last() =~= old_done);
                assert(hotkey_str@.subrange(i as int + 1, i as int + 1) =~= Seq::<char>::empty());
            }
            let ghost before = result@;
            let step = push_hotkey_part(&mut result, part);
            if let Err(e) = step {
                assert(collect_hotkey(done) == collect_one(sets_view(before), part@));
                proof {
                    lemma_split_nonempty(pre@, sep);
                    lemma_split_prefix(hotkey_str@, sep, i + 1);
                    assert(split_chars(pre@, sep).drop_last() =~= done);
                    lemma_collect_error_sticks(done, split_chars(hotkey_str@, sep));
                }
                return Err(e);
            }
            start = i + 1;
        } else {
            assert(hotkey_str@.subrange(start as int, i as int).push(pre@.last())
                =~= hotkey_str@.subrange(start as int, i as int + 1));
        }
        i = i + 1;
    }
    let part = hotkey_str.substring_char(start, n);
    proof {
        assert(hotkey_str@.subrange(0, n as int) =~= hotkey_str@);
        let old_done = done;
        done = done.push(part@);
        assert(done.drop_last() =~= old_done);
    }
    let ghost before = result@;
    let step = push_hotkey_part(&mut result, part);
    if let Err(e) = step {
        assert(collect_hotkey(done) == collect_one(sets_view(before), part@));
        assert(done == split_chars(hotkey_str@, sep));
        return Err(e);
    }
    if result.len() == 0 {
        return Err("Hotkey cannot be empty".to_owned());
    }
    Ok(result)
}

/// Event type of key presses and releases.
pub const EV_KEY: u16 = 1;

pub const KEY_RELEASE: i32 = 0;

pub const KEY_PRESS: i32 = 1;

pub const KEY_REPEAT: i32 = 2;

/// Some set of the hotkey holds `code`.
pub open spec fn code_in_hotkey(hot: Seq<Set<u16>>, code: u16) -> bool {
    exists|i: int| 0 <= i < hot.len() && #[trigger] hot[i].contains(code)
}

/// The two sets share a key.
pub open spec fn sets_share(a: Set<u16>, b: Set<u16>) -> bool {
    exists|k: u16| a.contains(k) && b.contains(k)
}

/// Every set of the hotkey has a key among the held keys.
pub open spec fn hotkey_held(hot: Seq<Set<u16>>, active: Set<u16>) -> bool {
    forall|i: int| 0 <= i < hot.len() ==> sets_share(#[trigger] hot[i], active)
}

/// State while a batch of events is read: the held keys, whether the
/// hotkey fired, and the events to forward.
pub struct ScanModel {
    pub active: Set<u16>,
    pub triggered: bool,
    pub forwarded: Seq<KvmEvent>,
}

/// One event: key presses and repeats hold a key, releases let it go; a
/// press of a hotkey key that completes the hotkey fires it. Once fired,
/// the rest of the batch is not forwarded; before, events are forwarded
/// while input is grabbed.
pub open spec fn scan_event(hot: Seq<Set<u16>>, grabbed: bool, st: ScanModel, e: KvmEvent) -> ScanModel {
    let is_key = e.event_type == EV_KEY;
    let active = if is_key && (e.value == KEY_PRESS || e.value == KEY_REPEAT) {
        st.active.insert(e.code)
    } else if is_key && e.value == KEY_RELEASE {
        st.active.remove(e.code)
    } else {
        st.active
    };
    let triggered = st.triggered || (is_key && e.value == KEY_PRESS && code_in_hotkey(hot, e.code)
        && hotkey_held(hot, active));
    let forwarded = if !triggered && grabbed {
        st.forwarded.push(e)
    } else {
        st.forwarded
    };
    ScanModel { active, triggered, forwarded }
}

pub open spec fn scan_events(hot: Seq<Set<u16>>, grabbed: bool, active: Set<u16>, events: Seq<KvmEvent>) -> ScanModel
    decreases events.len(),
{
    if events.len() == 0 {
        ScanModel { active, triggered: false, forwarded: Seq::empty() }
    } else {
        scan_event(hot, grabbed, scan_events(hot, grabbed, active, events.drop_last()), events.last())
    }
}

/// The host after a batch: whether input is grabbed, the held keys, whether
/// the hotkey toggled the grab, and the packet to send.
pub struct HostStepModel {
    pub grabbed: bool,
    pub active: Set<u16>,
    pub toggled: bool,
    pub packet: Option<PacketModel>,
}

/// A fired hotkey flips the grab and announces it (a handshake when
/// grabbing, a release of all inputs when letting go, which also forgets
/// the held keys); otherwise grabbed events go out as one packet.
pub open spec fn host_step(hot: Seq<Set<u16>>, grabbed: bool, active: Set<u16>, events: Seq<KvmEvent>) -> HostStepModel {
    let sc = scan_events(hot, grabbed, active, events);
    if sc.triggered {
        if !grabbed {
            HostStepModel {
                grabbed: true,
                active: sc.active,
                toggled: true,
                packet: Some(PacketModel::Handshake { version: PROTOCOL_VERSION }),
            }
        } else {
            HostStepModel {
                grabbed: false,
                active: Set::empty(),
                toggled: true,
                packet: Some(PacketModel::ReleaseAll),
            }
        }
    } else if grabbed && sc.forwarded.len() > 0 {
        HostStepModel { grabbed, active: sc.active, toggled: false, packet: Some(PacketModel::Events(sc.forwarded)) }
    } else {
        HostStepModel { grabbed, active: sc.active, toggled: false, packet: None }
    }
}

/// What the host does after a batch of events.
pub struct HostOutcome {
    /// The grab flipped: devices must be grabbed or released to match.
    pub toggled: bool,
    /// The packet to send, if any.
    pub packet: Option<KvmPacket>,
}

pub open spec fn packet_option_view(p: Option<KvmPacket>) -> Option<PacketModel> {
    match p {
        Some(q) => Some(q@),
        None => None,
    }
}

/// Whether the two sets share a key.
fn sets_meet(a: &HashSet<u16>, b: &HashSet<u16>) -> (r: bool)
    ensures
        r == sets_share(a@, b@),
{
    let ghost keys = vstd::std_specs::hash::spec_hash_keys_iter(a).remaining().unref();
    let ghost mut count: int = 0;
    for k in it: a.iter()
        invariant
            it.seq().unref() == keys,
            keys.to_set() == a@,
            count == it.index(),
            forall|j: int| 0 <= j < count ==> !b@.contains(#[trigger] keys[j]),
    {
        if b.contains(k) {
            return true;
        }
        proof {
            count = count + 1;
        }
    }
    assert(count == keys.len());
    assert forall|k: u16| a@.contains(k) implies !b@.contains(k) by {
        assert(keys.to_set().contains(k));
        let j = choose|j: int| 0 <= j < keys.len() && keys[j] == k;
        assert(!b@.contains(keys[j]));
    }
    false
}

fn in_hotkey(hotkey_sets: &Vec<HashSet<u16>>, code: u16) -> (r: bool)
    ensures
        r == code_in_hotkey(sets_view(hotkey_sets@), code),
{
    let mut i: usize = 0;
    while i < hotkey_sets.len()
        invariant
            i <= hotkey_sets@.len(),
            forall|j: int| 0 <= j < i ==> !(#[trigger] sets_view(hotkey_sets@)[j]).contains(code),
        decreases hotkey_sets@.len() - i,
    {
        if hotkey_sets[i].contains(&code) {
            assert(sets_view(hotkey_sets@)[i as int].contains(code));
            return true;
        }
        i = i + 1;
    }
    false
}

fn hotkey_is_held(hotkey_sets: &Vec<HashSet<u16>>, active_keys: &HashSet<u16>) -> (r: bool)
    ensures
        r == hotkey_held(sets_view(hotkey_sets@), active_keys@),
{
    let mut i: usize = 0;
    while i < hotkey_sets.len()
        invariant
            i <= hotkey_sets@.len(),
            forall|j: int| 0 <= j < i ==> sets_share(#[trigger] sets_view(hotkey_sets@)[j], active_keys@),
        decreases hotkey_sets@.len() - i,
    {
        if !sets_meet(&hotkey_sets[i], active_keys) {
            assert(!sets_share(sets_view(hotkey_sets@)[i as int], active_keys@));
            return false;
        }
        i = i + 1;
    }
    true
}

/// Reads a batch of captured events: tracks held keys, watches for the
/// hotkey, and decides the grab state and the packet to send.
pub fn process_events(
    events: &Vec<KvmEvent>,
    is_grabbed: &mut bool,
    active_keys: &mut HashSet<u16>,
    hotkey_sets: &Vec<HashSet<u16>>,
) -> (out: HostOutcome)
    ensures
        host_step(sets_view(hotkey_sets@), *old(is_grabbed), old(active_keys)@, events@) == (HostStepModel {
            grabbed: *final(is_grabbed),
            active: final(active_keys)@,
            toggled: out.toggled,
            packet: packet_option_view(out.packet),
        }),
{
    let ghost hot = sets_view(hotkey_sets@);
    let ghost active0 = active_keys@;
    let grabbed = *is_grabbed;
    let mut kvm_events: Vec<KvmEvent> = Vec::new();
    let mut toggle_triggered = false;
    let n = events.len();
    let mut i: usize = 0;
    while i < n
        invariant
            n == events@.len(),
            i <= n,
            hot == sets_view(hotkey_sets@),
            scan_events(hot, grabbed, active0, events@.take(i as int)) == (ScanModel {
                active: active_keys@,
                triggered: toggle_triggered,
                forwarded: kvm_events@,
            }),
        decreases n - i,
    {
        let ev = events[i];
        assert(events@.take(i + 1).drop_last() =~= events@.take(i as int));
        if ev.event_type == EV_KEY {
            if ev.value == KEY_PRESS {
                active_keys.insert(ev.code);
                if in_hotkey(hotkey_sets, ev.code) {
                    if hotkey_is_held(hotkey_sets, active_keys) {
                        toggle_triggered = true;
                    }
                }
            } else if ev.value == KEY_REPEAT {
                active_keys.insert(ev.code);
            } else if ev.value == KEY_RELEASE {
                active_keys.remove(&ev.code);
            }
        }
        if !toggle_triggered && grabbed {
            kvm_events.push(ev);
        }
        i = i + 1;
    }
    assert(events@.take(n as int) =~= events@);
    if toggle_triggered {
        let new_state = !grabbed;
        *is_grabbed = new_state;
        if new_state {
            HostOutcome { toggled: true, packet: Some(KvmPacket::Handshake { version: PROTOCOL_VERSION }) }
        } else {
            active_keys.clear();
            HostOutcome { toggled: true, packet: Some(KvmPacket::ReleaseAll) }
        }
    } else if grabbed && kvm_events.len() > 0 {
        HostOutcome { toggled: false, packet: Some(KvmPacket::Events(kvm_events)) }
    } else {
        HostOutcome { toggled: false, packet: None }
    }
}

/// While input is not grabbed, no captured event leaves the host.
pub proof fn lemma_ungrabbed_forwards_nothing(hot: Seq<Set<u16>>, active: Set<u16>, events: Seq<KvmEvent>)
    ensures
        !(host_step(hot, false, active, events).packet matches Some(PacketModel::Events(_))),
        scan_events(hot, false, active, events).forwarded.len() == 0,
    decreases events.len(),
{
    if events.len() > 0 {
        lemma_ungrabbed_forwards_nothing(hot, active, events.drop_last());
    }
}

/// Events after the hotkey fires in a batch are never forwarded: every
/// forwarded event came before it.
pub proof fn lemma_forwarded_only_before_hotkey(hot: Seq<Set<u16>>, grabbed: bool, active: Set<u16>, events: Seq<KvmEvent>)
    ensures
        scan_events(hot, grabbed, active, events).forwarded.len() <= events.len(),
        scan_events(hot, grabbed, active, events).triggered ==> scan_events(hot, grabbed, active, events).forwarded.len() < events.len(),
    decreases events.len(),
{
    if events.len() > 0 {
        lemma_forwarded_only_before_hotkey(hot, grabbed, active, events.drop_last());
    }
}

/// The key events of a batch (type 1, `EV_KEY`), in order.
pub open spec fn key_events_of(events: Seq<KvmEvent>) -> Seq<KvmEvent>
    decreases events.len(),
{
    if events.len() == 0 {
        Seq::empty()
    } else if events.last().event_type == 1 {
        key_events_of(events.drop_last()).push(events.last())
    } else {
        key_events_of(events.drop_last())
    }
}

/// Only key events (type 1) touch the held keys or the hotkey: any other
/// event (mouse motion, wheels, sync reports) leaves the held keys as they
/// are and never fires the hotkey. A press or repeat of a key holds it, and
/// a release lets it go.
pub proof fn lemma_only_key_events_count(hot: Seq<Set<u16>>, grabbed: bool, st: ScanModel, e: KvmEvent)
    ensures
        e.event_type != 1 ==> scan_event(hot, grabbed, st, e).active == st.active,
        e.event_type != 1 ==> scan_event(hot, grabbed, st, e).triggered == st.triggered,
        e.event_type == 1 && (e.value == 1 || e.value == 2) ==> scan_event(hot, grabbed, st, e).active == st.active.insert(e.code),
        e.event_type == 1 && e.value == 0 ==> scan_event(hot, grabbed, st, e).active == st.active.remove(e.code),
        e.event_type == 1 && e.value != 0 && e.value != 1 && e.value != 2 ==> scan_event(hot, grabbed, st, e).active == st.active,
        !(e.event_type == 1 && e.value == 1) ==> scan_event(hot, grabbed, st, e).triggered == st.triggered,
{
}

/// For any batch, the held keys after it and whether the hotkey fired are
/// those that its key events alone give: the other events change neither.
pub proof fn lemma_batch_decided_by_key_events(hot: Seq<Set<u16>>, grabbed: bool, active: Set<u16>, events: Seq<KvmEvent>)
    ensures
        scan_events(hot, grabbed, active, events).active == scan_events(hot, grabbed, active, key_events_of(events)).active,
        scan_events(hot, grabbed, active, events).triggered == scan_events(hot, grabbed, active, key_events_of(events)).triggered,
        host_step(hot, grabbed, active, events).toggled == host_step(hot, grabbed, active, key_events_of(events)).toggled,
    decreases events.len(),
{
    if events.len() > 0 {
        let prev = events.drop_last();
        let e = events.last();
        lemma_batch_decided_by_key_events(hot, grabbed, active, prev);
        lemma_only_key_events_count(hot, grabbed, scan_events(hot, grabbed, active, prev), e);
        if e.event_type == 1 {
            let k = key_events_of(events);
            assert(k.drop_last() == key_events_of(prev));
            assert(k.last() == e);
            lemma_only_key_events_count(hot, grabbed, scan_events(hot, grabbed, active, key_events_of(prev)), e);
        }
    }
}

proof fn lemma_unfired_grabbed_forwards_all(hot: Seq<Set<u16>>, active: Set<u16>, events: Seq<KvmEvent>)
    requires
        !scan_events(hot, true, active, events).triggered,
    ensures
        scan_events(hot, true, active, events).forwarded == events,
    decreases events.len(),
{
    if events.len() > 0 {
        lemma_unfired_grabbed_forwards_all(hot, active, events.drop_last());
        assert(events.drop_last().push(events.last()) =~= events);
    }
}

/// What a batch leads to: the grab flips exactly when the hotkey fired in
/// it. Turning the grab on announces a handshake of this protocol; turning
/// it off sends a release of all input and forgets the held keys. While the
/// grab stays on, every event of the batch is sent, in order, in one
/// packet (none for an empty batch); while it stays off nothing is sent.
pub proof fn lemma_batch_outcome(hot: Seq<Set<u16>>, grabbed: bool, active: Set<u16>, events: Seq<KvmEvent>)
    ensures
        ({
            let fired = scan_events(hot, grabbed, active, events).triggered;
            let out = host_step(hot, grabbed, active, events);
            &&& out.toggled == fired
            &&& out.grabbed == (grabbed != fired)
            &&& (fired && !grabbed ==> out.packet == Some(PacketModel::Handshake { version: PROTOCOL_VERSION }))
            &&& (fired && grabbed ==> out.packet == Some(PacketModel::ReleaseAll) && out.active == Set::<u16>::empty())
            &&& (!fired && grabbed && events.len() > 0 ==> out.packet == Some(PacketModel::Events(events)))
            &&& (!fired && (!grabbed || events.len() == 0) ==> out.packet is None)
            &&& (!(fired && grabbed) ==> out.active == scan_events(hot, grabbed, active, events).active)
        }),
{
    if grabbed && !scan_events(hot, grabbed, active, events).triggered {
        lemma_unfired_grabbed_forwards_all(hot, active, events);
    }
    if !grabbed {
        lemma_ungrabbed_forwards_nothing(hot, active, events);
    }
}

/// Event `k` of the batch completes the hotkey: it is a press (type 1,
/// value 1) of a key of the hotkey, and with it every set of the hotkey has
/// a key held.
pub open spec fn completes_hotkey_at(hot: Seq<Set<u16>>, grabbed: bool, active: Set<u16>, events: Seq<KvmEvent>, k: int) -> bool {
    &&& 0 <= k < events.len()
    &&& events[k].event_type == 1
    &&& events[k].value == 1
    &&& exists|i: int| 0 <= i < hot.len() && hot[i].contains(events[k].code)
    &&& forall|i: int|
        0 <= i < hot.len() ==> #[trigger] has_held_key(hot[i], scan_events(hot, grabbed, active, events.take(k + 1)).active)
}

/// Some key of `keys` is among `held`.
pub open spec fn has_held_key(keys: Set<u16>, held: Set<u16>) -> bool {
    exists|c: u16| keys.contains(c) && held.contains(c)
}

/// The hotkey fires in a batch exactly when some event of it completes the
/// hotkey.
pub proof fn lemma_hotkey_fires_on_completion(hot: Seq<Set<u16>>, grabbed: bool, active: Set<u16>, events: Seq<KvmEvent>)
    ensures
        scan_events(hot, grabbed, active, events).triggered <==> exists|k: int| #[trigger]
            completes_hotkey_at(hot, grabbed, active, events, k),
    decreases events.len(),
{
    if events.len() > 0 {
        let prev = events.drop_last();
        let n = events.len() - 1;
        lemma_hotkey_fires_on_completion(hot, grabbed, active, prev);
        assert(events.take(n + 1) =~= events);
        let after = scan_events(hot, grabbed, active, events).active;
        assert(scan_events(hot, grabbed, active, events.take(n + 1)).active == after);
        assert forall|k: int| 0 <= k < n implies (#[trigger] completes_hotkey_at(hot, grabbed, active, events, k)
            <==> completes_hotkey_at(hot, grabbed, active, prev, k)) by {
            assert(events.take(k + 1) =~= prev.take(k + 1));
            assert(events[k] == prev[k]);
            let a1 = scan_events(hot, grabbed, active, events.take(k + 1)).active;
            let a2 = scan_events(hot, grabbed, active, prev.take(k + 1)).active;
            assert(a1 == a2);
            assert forall|i: int| 0 <= i < hot.len() implies (#[trigger] has_held_key(hot[i], a1) <==> has_held_key(hot[i], a2)) by {}
        }
        if scan_events(hot, grabbed, active, prev).triggered {
            let k = choose|k: int| completes_hotkey_at(hot, grabbed, active, prev, k);
            assert(completes_hotkey_at(hot, grabbed, active, events, k));
        }
        if completes_hotkey_at(hot, grabbed, active, events, n) {
            assert forall|i: int| 0 <= i < hot.len() implies sets_share(#[trigger] hot[i], after) by {
                assert(has_held_key(hot[i], after));
            }
            assert(hotkey_held(hot, after));
            assert(scan_events(hot, grabbed, active, events).triggered);
        }
        if scan_events(hot, grabbed, active, events).triggered && !scan_events(hot, grabbed, active, prev).triggered {
            assert(code_in_hotkey(hot, events[n].code));
            assert(hotkey_held(hot, after));
            assert forall|i: int|
                0 <= i < hot.len() implies #[trigger] has_held_key(hot[i], after) by {
                assert(sets_share(hot[i], after));
            }
            assert(events[n].event_type == 1);
            assert(events[n].value == 1);
            assert(exists|i: int| 0 <= i < hot.len() && hot[i].contains(events[n].code));
            assert(completes_hotkey_at(hot, grabbed, active, events, n));
        }
        if exists|k: int| completes_hotkey_at(hot, grabbed, active, events, k) {
            let k = choose|k: int| completes_hotkey_at(hot, grabbed, active, events, k);
            if k < n {
                assert(completes_hotkey_at(hot, grabbed, active, prev, k));
            }
        }
    }
}

/// The key name `n` (lowercased) stands for keys whose Windows virtual keys
/// on the client are `vks`, in order.
pub open spec fn name_gives_keys(n: Seq<char>, vks: Seq<u16>) -> bool {
    &&& named_key_codes(n) is Some
    &&& named_key_codes(n)->0.len() == vks.len()
    &&& forall|j: int|
        0 <= j < vks.len() ==> #[trigger] windows_vk(named_key_codes(n)->0[j]) is Some
            && (windows_vk(named_key_codes(n)->0[j])->0).0 == vks[j]
}

/// Host and client agree on every named key: each name the hotkey accepts
/// stands for the keys that the client injects as the Windows keys of that
/// name (a generic modifier as its left and right key).
pub proof fn lemma_named_keys_agree()
    ensures
        // VK_ESCAPE
        name_gives_keys("esc"@, seq![0x1Bu16]),
        name_gives_keys("escape"@, seq![0x1Bu16]),
        // VK_LWIN, VK_RWIN
        name_gives_keys("meta"@, seq![0x5Bu16, 0x5Cu16]),
        name_gives_keys("super"@, seq![0x5Bu16, 0x5Cu16]),
        name_gives_keys("win"@, seq![0x5Bu16, 0x5Cu16]),
        name_gives_keys("windows"@, seq![0x5Bu16, 0x5Cu16]),
        name_gives_keys("mod"@, seq![0x5Bu16, 0x5Cu16]),
        // VK_LWIN
        name_gives_keys("leftmeta"@, seq![0x5Bu16]),
        name_gives_keys("lmeta"@, seq![0x5Bu16]),
        name_gives_keys("lsuper"@, seq![0x5Bu16]),
        name_gives_keys("lwin"@, seq![0x5Bu16]),
        // VK_RWIN
        name_gives_keys("rightmeta"@, seq![0x5Cu16]),
        name_gives_keys("rmeta"@, seq![0x5Cu16]),
        name_gives_keys("rsuper"@, seq![0x5Cu16]),
        name_gives_keys("rwin"@, seq![0x5Cu16]),
        // VK_LCONTROL, VK_RCONTROL
        name_gives_keys("ctrl"@, seq![0xA2u16, 0xA3u16]),
        name_gives_keys("control"@, seq![0xA2u16, 0xA3u16]),
        // VK_LCONTROL
        name_gives_keys("leftctrl"@, seq![0xA2u16]),
        name_gives_keys("lctrl"@, seq![0xA2u16]),
        // VK_RCONTROL
        name_gives_keys("rightctrl"@, seq![0xA3u16]),
        name_gives_keys("rctrl"@, seq![0xA3u16]),
        // VK_LMENU, VK_RMENU
        name_gives_keys("alt"@, seq![0xA4u16, 0xA5u16]),
        // VK_LMENU
        name_gives_keys("leftalt"@, seq![0xA4u16]),
        name_gives_keys("lalt"@, seq![0xA4u16]),
        // VK_RMENU
        name_gives_keys("rightalt"@, seq![0xA5u16]),
        name_gives_keys("ralt"@, seq![0xA5u16]),
        name_gives_keys("altgr"@, seq![0xA5u16]),
        // VK_LSHIFT, VK_RSHIFT
        name_gives_keys("shift"@, seq![0xA0u16, 0xA1u16]),
        // VK_LSHIFT
        name_gives_keys("leftshift"@, seq![0xA0u16]),
        name_gives_keys("lshift"@, seq![0xA0u16]),
        // VK_RSHIFT
        name_gives_keys("rightshift"@, seq![0xA1u16]),
        name_gives_keys("rshift"@, seq![0xA1u16]),
        // VK_SPACE
        name_gives_keys("space"@, seq![0x20u16]),
        name_gives_keys("spacebar"@, seq![0x20u16]),
        // VK_RETURN
        name_gives_keys("enter"@, seq![0x0Du16]),
        name_gives_keys("return"@, seq![0x0Du16]),
        // VK_TAB
        name_gives_keys("tab"@, seq![0x09u16]),
        // VK_CAPITAL
        name_gives_keys("capslock"@, seq![0x14u16]),
        name_gives_keys("caps"@, seq![0x14u16]),
{
    lemma_key_name_literals();
}

/// `needle` occurs in `hay` as a contiguous run.
pub open spec fn contains_run(hay: Seq<char>, needle: Seq<char>) -> bool {
    exists|i: int| 0 <= i <= hay.len() - needle.len() && #[trigger] hay.subrange(i, i + needle.len()) == needle
}

/// A device is watched when its name holds the filter, case ignored.
pub fn device_name_matches(name: &str, filter: &str) -> (r: bool)
    ensures
        r == contains_run(to_lowercase(name@), to_lowercase(filter@)),
{
    let hay = lowercase(name);
    let needle = lowercase(filter);
    contains_str(hay.as_str(), needle.as_str())
}

/// Whether `needle` occurs in `hay`.
pub fn contains_str(hay: &str, needle: &str) -> (r: bool)
    ensures
        r == contains_run(hay@, needle@),
{
    let n = hay.unicode_len();
    let m = needle.unicode_len();
    if m > n {
        return false;
    }
    let last = n - m;
    let mut i: usize = 0;
    loop
        invariant
            n == hay@.len(),
            m == needle@.len(),
            last == n - m,
            i <= last,
            forall|j: int| 0 <= j < i ==> #[trigger] hay@.subrange(j, j + m) != needle@,
        decreases last - i,
    {
        if str_eq(hay.substring_char(i, i + m), needle) {
            assert(hay@.subrange(i as int, i + m) == needle@);
            return true;
        }
        if i == last {
            return false;
        }
        i = i + 1;
    }
}
/// Milliseconds between two scans for devices by name.
pub const RESCAN_INTERVAL_MS: u128 = 2000;

/// What the host does about its devices at the top of each round.
#[derive(Debug, Clone, Copy, PartialEq, Eq, Structural)]
pub enum DeviceScan {
    /// Look again for devices whose name matches the filter.
    Rescan,
    /// Open the one device path given on the command line.
    OpenGivenDevice,
    /// Nothing this round.
    Idle,
}

/// Without a device path, rescan by name every `RESCAN_INTERVAL_MS`; with
/// one, open it whenever no device is open.
pub open spec fn device_scan_spec(device_given: bool, have_devices: bool, since_last_scan_ms: u128) -> DeviceScan {
    if !device_given && since_last_scan_ms >= RESCAN_INTERVAL_MS {
        DeviceScan::Rescan
    } else if device_given && !have_devices {
        DeviceScan::OpenGivenDevice
    } else {
        DeviceScan::Idle
    }
}

pub fn device_scan_action(device_given: bool, have_devices: bool, since_last_scan_ms: u128) -> (r: DeviceScan)
    ensures
        r == device_scan_spec(device_given, have_devices, since_last_scan_ms),
{
    if !device_given && since_last_scan_ms >= RESCAN_INTERVAL_MS {
        DeviceScan::Rescan
    } else if device_given && !have_devices {
        DeviceScan::OpenGivenDevice
    } else {
        DeviceScan::Idle
    }
}

/// Some path of `paths` has exactly the bytes `p`.
pub open spec fn paths_contain(paths: Seq<Vec<u8>>, p: Seq<u8>) -> bool {
    exists|i: int| 0 <= i < paths.len() && #[trigger] paths[i]@ == p
}

fn bytes_eq(a: &[u8], b: &[u8]) -> (r: bool)
    ensures
        r == (a@ == b@),
{
    let n = a.len();
    if n != b.len() {
        return false;
    }
    let mut i: usize = 0;
    while i < n
        invariant
            n == a@.len(),
            n == b@.len(),
            i <= n,
            forall|j: int| 0 <= j < i ==> a@[j] == b@[j],
        decreases n - i,
    {
        if a[i] != b[i] {
            return false;
        }
        i = i + 1;
    }
    assert(a@ =~= b@);
    true
}

fn paths_contain_exec(paths: &Vec<Vec<u8>>, p: &[u8]) -> (r: bool)
    ensures
        r == paths_contain(paths@, p@),
{
    let mut i: usize = 0;
    while i < paths.len()
        invariant
            i <= paths@.len(),
            forall|j: int| 0 <= j < i ==> (#[trigger] paths@[j])@ != p@,
        decreases paths@.len() - i,
    {
        if bytes_eq(paths[i].as_slice(), p) {
            return true;
        }
        i = i + 1;
    }
    false
}

/// For each open device (by path bytes), whether a scan found it again;
/// the others have gone and are closed.
pub fn devices_still_present(open_paths: &Vec<Vec<u8>>, found_paths: &Vec<Vec<u8>>) -> (keep: Vec<bool>)
    ensures
        keep@.len() == open_paths@.len(),
        forall|i: int| 0 <= i < open_paths@.len() ==> keep@[i] == paths_contain(found_paths@, (#[trigger] open_paths@[i])@),
{
    let mut keep: Vec<bool> = Vec::new();
    let mut i: usize = 0;
    while i < open_paths.len()
        invariant
            i <= open_paths@.len(),
            keep@.len() == i,
            forall|j: int| 0 <= j < i ==> keep@[j] == paths_contain(found_paths@, (#[trigger] open_paths@[j])@),
        decreases open_paths@.len() - i,
    {
        let present = paths_contain_exec(found_paths, open_paths[i].as_slice());
        keep.push(present);
        i = i + 1;
    }
    keep
}

/// A found path is opened when no open device has it.
pub fn is_new_device(open_paths: &Vec<Vec<u8>>, path: &[u8]) -> (r: bool)
    ensures
        r == !paths_contain(open_paths@, path@),
{
    !paths_contain_exec(open_paths, path)
}

} // verus!

verus! {

/// Length, first and last character of every key name in the table: enough
/// to tell any two of them apart.
proof fn lemma_key_name_literals()
    ensures
        "esc"@.len() == 3 && "esc"@[0] == 'e' && "esc"@[2] == 'c',
        "escape"@.len() == 6 && "escape"@[0] == 'e' && "escape"@[5] == 'e',
        "meta"@.len() == 4 && "meta"@[0] == 'm' && "meta"@[3] == 'a',
        "super"@.len() == 5 && "super"@[0] == 's' && "super"@[4] == 'r',
        "win"@.len() == 3 && "win"@[0] == 'w' && "win"@[2] == 'n',
        "windows"@.len() == 7 && "windows"@[0] == 'w' && "windows"@[6] == 's',
        "mod"@.len() == 3 && "mod"@[0] == 'm' && "mod"@[2] == 'd',
        "leftmeta"@.len() == 8 && "leftmeta"@[0] == 'l' && "leftmeta"@[7] == 'a',
        "lmeta"@.len() == 5 && "lmeta"@[0] == 'l' && "lmeta"@[4] == 'a',
        "lsuper"@.len() == 6 && "lsuper"@[0] == 'l' && "lsuper"@[5] == 'r',
        "lwin"@.len() == 4 && "lwin"@[0] == 'l' && "lwin"@[3] == 'n',
        "rightmeta"@.len() == 9 && "rightmeta"@[0] == 'r' && "rightmeta"@[8] == 'a',
        "rmeta"@.len() == 5 && "rmeta"@[0] == 'r' && "rmeta"@[4] == 'a',
        "rsuper"@.len() == 6 && "rsuper"@[0] == 'r' && "rsuper"@[5] == 'r',
        "rwin"@.len() == 4 && "rwin"@[0] == 'r' && "rwin"@[3] == 'n',
        "ctrl"@.len() == 4 && "ctrl"@[0] == 'c' && "ctrl"@[3] == 'l',
        "control"@.len() == 7 && "control"@[0] == 'c' && "control"@[6] == 'l',
        "leftctrl"@.len() == 8 && "leftctrl"@[0] == 'l' && "leftctrl"@[7] == 'l',
        "lctrl"@.len() == 5 && "lctrl"@[0] == 'l' && "lctrl"@[4] == 'l',
        "rightctrl"@.len() == 9 && "rightctrl"@[0] == 'r' && "rightctrl"@[8] == 'l',
        "rctrl"@.len() == 5 && "rctrl"@[0] == 'r' && "rctrl"@[4] == 'l',
        "alt"@.len() == 3 && "alt"@[0] == 'a' && "alt"@[2] == 't',
        "leftalt"@.len() == 7 && "leftalt"@[0] == 'l' && "leftalt"@[6] == 't',
        "lalt"@.len() == 4 && "lalt"@[0] == 'l' && "lalt"@[3] == 't',
        "rightalt"@.len() == 8 && "rightalt"@[0] == 'r' && "rightalt"@[7] == 't',
        "ralt"@.len() == 4 && "ralt"@[0] == 'r' && "ralt"@[3] == 't',
        "altgr"@.len() == 5 && "altgr"@[0] == 'a' && "altgr"@[4] == 'r',
        "shift"@.len() == 5 && "shift"@[0] == 's' && "shift"@[4] == 't',
        "leftshift"@.len() == 9 && "leftshift"@[0] == 'l' && "leftshift"@[8] == 't',
        "lshift"@.len() == 6 && "lshift"@[0] == 'l' && "lshift"@[5] == 't',
        "rightshift"@.len() == 10 && "rightshift"@[0] == 'r' && "rightshift"@[9] == 't',
        "rshift"@.len() == 6 && "rshift"@[0] == 'r' && "rshift"@[5] == 't',
        "space"@.len() == 5 && "space"@[0] == 's' && "space"@[4] == 'e',
        "spacebar"@.len() == 8 && "spacebar"@[0] == 's' && "spacebar"@[7] == 'r',
        "enter"@.len() == 5 && "enter"@[0] == 'e' && "enter"@[4] == 'r',
        "return"@.len() == 6 && "return"@[0] == 'r' && "return"@[5] == 'n',
        "tab"@.len() == 3 && "tab"@[0] == 't' && "tab"@[2] == 'b',
        "capslock"@.len() == 8 && "capslock"@[0] == 'c' && "capslock"@[7] == 'k',
        "caps"@.len() == 4 && "caps"@[0] == 'c' && "caps"@[3] == 's',
        "a"@.len() == 1 && "a"@[0] == 'a',
        "b"@.len() == 1 && "b"@[0] == 'b',
        "c"@.len() == 1 && "c"@[0] == 'c',
        "d"@.len() == 1 && "d"@[0] == 'd',
        "e"@.len() == 1 && "e"@[0] == 'e',
        "f"@.len() == 1 && "f"@[0] == 'f',
        "g"@.len() == 1 && "g"@[0] == 'g',
        "h"@.len() == 1 && "h"@[0] == 'h',
        "i"@.len() == 1 && "i"@[0] == 'i',
        "j"@.len() == 1 && "j"@[0] == 'j',
        "k"@.len() == 1 && "k"@[0] == 'k',
        "l"@.len() == 1 && "l"@[0] == 'l',
        "m"@.len() == 1 && "m"@[0] == 'm',
        "n"@.len() == 1 && "n"@[0] == 'n',
        "o"@.len() == 1 && "o"@[0] == 'o',
        "p"@.len() == 1 && "p"@[0] == 'p',
        "q"@.len() == 1 && "q"@[0] == 'q',
        "r"@.len() == 1 && "r"@[0] == 'r',
        "s"@.len() == 1 && "s"@[0] == 's',
        "t"@.len() == 1 && "t"@[0] == 't',
        "u"@.len() == 1 && "u"@[0] == 'u',
        "v"@.len() == 1 && "v"@[0] == 'v',
        "w"@.len() == 1 && "w"@[0] == 'w',
        "x"@.len() == 1 && "x"@[0] == 'x',
        "y"@.len() == 1 && "y"@[0] == 'y',
        "z"@.len() == 1 && "z"@[0] == 'z',
{
    broadcast use vstd::string::group_string_axioms;
    reveal_strlit("esc");
    reveal_strlit("escape");
    reveal_strlit("meta");
    reveal_strlit("super");
    reveal_strlit("win");
    reveal_strlit("windows");
    reveal_strlit("mod");
    reveal_strlit("leftmeta");
    reveal_strlit("lmeta");
    reveal_strlit("lsuper");
    reveal_strlit("lwin");
    reveal_strlit("rightmeta");
    reveal_strlit("rmeta");
    reveal_strlit("rsuper");
    reveal_strlit("rwin");
    reveal_strlit("ctrl");
    reveal_strlit("control");
    reveal_strlit("leftctrl");
    reveal_strlit("lctrl");
    reveal_strlit("rightctrl");
    reveal_strlit("rctrl");
    reveal_strlit("alt");
    reveal_strlit("leftalt");
    reveal_strlit("lalt");
    reveal_strlit("rightalt");
    reveal_strlit("ralt");
    reveal_strlit("altgr");
    reveal_strlit("shift");
    reveal_strlit("leftshift");
    reveal_strlit("lshift");
    reveal_strlit("rightshift");
    reveal_strlit("rshift");
    reveal_strlit("space");
    reveal_strlit("spacebar");
    reveal_strlit("enter");
    reveal_strlit("return");
    reveal_strlit("tab");
    reveal_strlit("capslock");
    reveal_strlit("caps");
    reveal_strlit("a");
    reveal_strlit("b");
    reveal_strlit("c");
    reveal_strlit("d");
    reveal_strlit("e");
    reveal_strlit("f");
    reveal_strlit("g");
    reveal_strlit("h");
    reveal_strlit("i");
    reveal_strlit("j");
    reveal_strlit("k");
    reveal_strlit("l");
    reveal_strlit("m");
    reveal_strlit("n");
    reveal_strlit("o");
    reveal_strlit("p");
    reveal_strlit("q");
    reveal_strlit("r");
    reveal_strlit("s");
    reveal_strlit("t");
    reveal_strlit("u");
    reveal_strlit("v");
    reveal_strlit("w");
    reveal_strlit("x");
    reveal_strlit("y");
    reveal_strlit("z");
}

/// A key name that starts with a letter is no decimal number.
proof fn lemma_letter_name_is_no_number(n: Seq<char>)
    requires
        n.len() > 0,
        'a' <= n[0] <= 'z',
    ensures
        parse_u16_spec(n) is None,
{
    assert(!is_decimal_digit(u16_digits(n)[0]));
}

proof fn lemma_to_set_of_one(a: u16)
    ensures
        seq![a].to_set() == set![a],
{
    let one = seq![a];
    assert forall|x: u16| #[trigger] one.to_set().contains(x) <==> x == a by {
        if x == a {
            assert(one[0] == x);
        }
    }
    assert(one.to_set() =~= set![a]);
}

/// The lowercased generic, left and right names of one modifier key.
pub open spec fn modifier_sides(g: Seq<char>, l: Seq<char>, r: Seq<char>) -> bool {
    ||| (g == "ctrl"@ && l == "lctrl"@ && r == "rctrl"@)
    ||| (g == "alt"@ && l == "lalt"@ && r == "ralt"@)
    ||| (g == "shift"@ && l == "lshift"@ && r == "rshift"@)
    ||| (g == "meta"@ && l == "lmeta"@ && r == "rmeta"@)
}

/// A generic modifier name (`ctrl`, `alt`, `shift`, `meta`) stands for
/// exactly the keys of its left and its right name together, and each sided
/// name for one key.
pub proof fn lemma_generic_modifier_is_both_sides(g: Seq<char>, l: Seq<char>, r: Seq<char>)
    requires
        modifier_sides(to_lowercase(trim(g)), to_lowercase(trim(l)), to_lowercase(trim(r))),
    ensures
        key_name_codes(g) is Ok,
        key_name_codes(l) is Ok,
        key_name_codes(r) is Ok,
        key_name_codes(g)->Ok_0 == key_name_codes(l)->Ok_0.union(key_name_codes(r)->Ok_0),
        key_name_codes(l)->Ok_0.len() == 1,
        key_name_codes(r)->Ok_0.len() == 1,
{
    lemma_key_name_literals();
    let lg = to_lowercase(trim(g));
    let ll = to_lowercase(trim(l));
    let lr = to_lowercase(trim(r));
    lemma_letter_name_is_no_number(lg);
    lemma_letter_name_is_no_number(ll);
    lemma_letter_name_is_no_number(lr);
    let (a, b): (u16, u16) = if lg == "ctrl"@ {
        (29, 97)
    } else if lg == "alt"@ {
        (56, 100)
    } else if lg == "shift"@ {
        (42, 54)
    } else {
        (125, 126)
    };
    assert(named_key_codes(lg) == Some(seq![a, b]));
    assert(named_key_codes(ll) == Some(seq![a]));
    assert(named_key_codes(lr) == Some(seq![b]));
    lemma_to_set_of_one(a);
    lemma_to_set_of_one(b);
    let both = seq![a, b];
    assert forall|x: u16| #[trigger] both.to_set().contains(x) <==> (x == a || x == b) by {
        if x == a {
            assert(both[0] == x);
        }
        if x == b {
            assert(both[1] == x);
        }
    }
    assert(both.to_set() =~= set![a].union(set![b]));
    assert(set![a].len() == 1);
    assert(set![b].len() == 1);
}

/// Every letter key name on the host (`n`, lowercased) stands for one key
/// code, which the client turns into the virtual key of the same letter,
/// upper case; any name that lowercases to it gives that code.
pub proof fn lemma_letters_agree(n: Seq<char>)
    requires
        n.len() == 1,
        'a' <= n[0] <= 'z',
    ensures
        named_key_codes(n) is Some,
        named_key_codes(n)->0.len() == 1,
        windows_vk(named_key_codes(n)->0[0]) == Some(((n[0] as u32 - 32) as u16, false)),
        forall|name: Seq<char>|
            to_lowercase(trim(name)) == n ==> #[trigger] key_name_codes(name) == Ok::<Set<u16>, Seq<char>>(
                set![named_key_codes(n)->0[0]],
            ),
{
    lemma_key_name_literals();
    lemma_letter_name_is_no_number(n);
    let c = n[0];
    if c == 'a' {
        assert(n =~= "a"@);
    } else if c == 'b' {
        assert(n =~= "b"@);
    } else if c == 'c' {
        assert(n =~= "c"@);
    } else if c == 'd' {
        assert(n =~= "d"@);
    } else if c == 'e' {
        assert(n =~= "e"@);
    } else if c == 'f' {
        assert(n =~= "f"@);
    } else if c == 'g' {
        assert(n =~= "g"@);
    } else if c == 'h' {
        assert(n =~= "h"@);
    } else if c == 'i' {
        assert(n =~= "i"@);
    } else if c == 'j' {
        assert(n =~= "j"@);
    } else if c == 'k' {
        assert(n =~= "k"@);
    } else if c == 'l' {
        assert(n =~= "l"@);
    } else if c == 'm' {
        assert(n =~= "m"@);
    } else if c == 'n' {
        assert(n =~= "n"@);
    } else if c == 'o' {
        assert(n =~= "o"@);
    } else if c == 'p' {
        assert(n =~= "p"@);
    } else if c == 'q' {
        assert(n =~= "q"@);
    } else if c == 'r' {
        assert(n =~= "r"@);
    } else if c == 's' {
        assert(n =~= "s"@);
    } else if c == 't' {
        assert(n =~= "t"@);
    } else if c == 'u' {
        assert(n =~= "u"@);
    } else if c == 'v' {
        assert(n =~= "v"@);
    } else if c == 'w' {
        assert(n =~= "w"@);
    } else if c == 'x' {
        assert(n =~= "x"@);
    } else if c == 'y' {
        assert(n =~= "y"@);
    } else if c == 'z' {
        assert(n =~= "z"@);
    }
    let k = named_key_codes(n)->0[0];
    assert(named_key_codes(n)->0 == seq![k]);
    lemma_to_set_of_one(k);
}

} // verus!
