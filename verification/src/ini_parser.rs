//! The parameters of a parameter sweep, as read from a configuration.
//!
//! The configuration holds, in section `simulation_params`, the keys
//! `substrate_lengths`, `k_neighbours` and `seeds`, each a list of numbers
//! separated by commas, and in section `options` the keys `periodic_bc`, a
//! truth value, and `init_seed`, a number.

use configparser::ini::Ini;
use vstd::prelude::*;
use vstd::std_specs::iter::IteratorSpec;

verus! {

/// `configparser::ini::Ini`, a configuration in memory. Its contents are
/// reached through `ini_get` alone.
#[verifier::external_type_specification]
#[verifier::external_body]
pub struct ExIni(Ini);

/// The values of a configuration as a lookup finds them: under each pair of a
/// section and a key, written as the caller writes them, the value that the
/// lookup reaches. A pair under which it reaches no value is not in the
/// domain.
pub uninterp spec fn ini_entries(config: Ini) -> Map<(Seq<char>, Seq<char>), Seq<char>>;

/// `Ini::get`: a copy of the value stored under the section and the key, or
/// nothing where none is stored. The lookup folds the case of both names
/// unless the configuration is case-sensitive, and may fall back to the
/// default section; it reads the configuration and changes nothing.
#[verifier::external_body]
fn ini_get(config: &Ini, section: &str, key: &str) -> (value: Option<String>)
    ensures
        value matches Some(v) ==> ini_entries(*config).contains_key((section@, key@))
            && ini_entries(*config)[(section@, key@)] == v@,
        value is None ==> !ini_entries(*config).contains_key((section@, key@)),
{
    config.get(section, key)
}

/// Why a configuration cannot be used.
#[derive(Clone, Copy, Debug, PartialEq, Eq, Structural)]
pub enum ConfigError {
    /// The configuration has no value under the section and key asked for.
    MissingEntry,
    /// A value that must be a single unsigned number is not one.
    MalformedNumber,
    /// The substrate has no column.
    EmptySubstrate,
    /// The neighbourhood is as wide as the substrate or wider.
    NeighbourRange,
    /// The ensemble has no realization.
    NoSeeds,
    /// Length, initial seed and seed count together exceed the magnitude of
    /// a signed 32-bit seed.
    SeedRange,
    /// The substrate length times the number of particles to drop does not
    /// fit 64 bits.
    TooManyParticles,
}

/// The parameters of a sweep: every combination of a length, a number of
/// neighbours and a seed count is one ensemble.
#[derive(Debug)]
pub struct InputParams {
    pub lengths: Vec<u32>,
    pub k_neighbours: Vec<u32>,
    pub seeds: Vec<u32>,
    pub periodic_bc: bool,
    pub init_seed: u32,
}

/// White space: the characters that carry the Unicode property `White_Space`.
pub open spec fn is_space(c: char) -> bool {
    let u = c as u32;
    ||| 0x09 <= u <= 0x0d
    ||| u == 0x20
    ||| u == 0x85
    ||| u == 0xa0
    ||| u == 0x1680
    ||| 0x2000 <= u <= 0x200a
    ||| u == 0x2028
    ||| u == 0x2029
    ||| u == 0x202f
    ||| u == 0x205f
    ||| u == 0x3000
}

/// A decimal digit, `0` to `9`.
pub open spec fn is_digit(c: char) -> bool {
    0x30 <= c as u32 <= 0x39
}

/// The value of a digit; zero for any other character.
pub open spec fn digit_value(c: char) -> nat {
    if is_digit(c) {
        (c as u32 - 0x30) as nat
    } else {
        0
    }
}

/// The number that a sequence of digits writes in base ten.
pub open spec fn digits_value(s: Seq<char>) -> nat
    decreases s.len(),
{
    if s.len() == 0 {
        0
    } else {
        10 * digits_value(s.drop_last()) + digit_value(s.last())
    }
}

/// Every character is a digit.
pub open spec fn all_digits(s: Seq<char>) -> bool {
    forall|i: int| 0 <= i < s.len() ==> is_digit(#[trigger] s[i])
}

/// The text without a leading plus sign.
pub open spec fn unsigned_part(s: Seq<char>) -> Seq<char> {
    if s.len() > 0 && s[0] == '+' {
        s.subrange(1, s.len() as int)
    } else {
        s
    }
}

/// The unsigned 32-bit number that a text writes: an optional plus sign, then
/// one or more decimal digits, with a value that fits 32 bits. Any other
/// text writes no number.
pub open spec fn number_of(s: Seq<char>) -> Option<u32> {
    let d = unsigned_part(s);
    if d.len() > 0 && all_digits(d) && digits_value(d) <= u32::MAX {
        Some(digits_value(d) as u32)
    } else {
        None
    }
}

/// The text without its leading white space.
pub open spec fn trim_start(s: Seq<char>) -> Seq<char>
    decreases s.len(),
{
    if s.len() > 0 && is_space(s[0]) {
        trim_start(s.drop_first())
    } else {
        s
    }
}

/// The text without its trailing white space.
pub open spec fn trim_end(s: Seq<char>) -> Seq<char>
    decreases s.len(),
{
    if s.len() > 0 && is_space(s.last()) {
        trim_end(s.drop_last())
    } else {
        s
    }
}

/// The text without white space at either end.
pub open spec fn trimmed(s: Seq<char>) -> Seq<char> {
    trim_end(trim_start(s))
}

/// The value of one entry of a list: the number that the entry writes once
/// white space around it is removed, and zero where it writes none.
pub open spec fn entry_value(s: Seq<char>) -> u32 {
    match number_of(trimmed(s)) {
        Some(n) => n,
        None => 0,
    }
}

/// The fields of a text, separated by commas: a comma ends a field and
/// starts the next, any other character extends the last field. A text
/// without a comma is one field, an empty text one empty field.
pub open spec fn fields(s: Seq<char>) -> Seq<Seq<char>>
    decreases s.len(),
{
    if s.len() == 0 {
        seq![Seq::<char>::empty()]
    } else {
        let before = fields(s.drop_last());
        if s.last() == ',' {
            before.push(Seq::<char>::empty())
        } else {
            before.update(before.len() - 1, before.last().push(s.last()))
        }
    }
}

/// The numbers of a list: the value of each of its fields, in order.
pub open spec fn list_values(s: Seq<char>) -> Seq<u32> {
    fields(s).map_values(|field: Seq<char>| entry_value(field))
}

/// The truth value that a text stands for, if it is one of the accepted
/// spellings.
pub open spec fn option_value(s: Seq<char>) -> Option<bool> {
    if s == "true"@ || s == "True"@ || s == "t"@ || s == "yes"@ || s == "Yes"@ || s == "y"@ {
        Some(true)
    } else if s == "false"@ || s == "False"@ || s == "f"@ || s == "no"@ || s == "No"@ || s
        == "n"@ {
        Some(false)
    } else {
        None
    }
}

/// The fields of a text written one after the other, with a comma between
/// each two.
pub open spec fn joined(parts: Seq<Seq<char>>) -> Seq<char>
    decreases parts.len(),
{
    if parts.len() == 0 {
        Seq::empty()
    } else if parts.len() == 1 {
        parts[0]
    } else {
        joined(parts.drop_last()) + seq![','] + parts.last()
    }
}

/// The fields of a text are what lies between its commas: there is at least
/// one field, no field holds a comma, and the fields joined by commas are the
/// text again.
pub proof fn lemma_fields(s: Seq<char>)
    ensures
        fields(s).len() >= 1,
        forall|f: int, i: int|
            0 <= f < fields(s).len() && 0 <= i < fields(s)[f].len() ==> #[trigger] fields(
                s,
            )[f][i] != ',',
        joined(fields(s)) == s,
    decreases s.len(),
{
    if s.len() > 0 {
        let before = fields(s.drop_last());
        let c = s.last();
        lemma_fields(s.drop_last());
        if c == ',' {
            let after = before.push(Seq::<char>::empty());
            assert(after.drop_last() == before);
            assert(joined(after) =~= s);
            assert forall|f: int, i: int|
                0 <= f < after.len() && 0 <= i < after[f].len() implies #[trigger] after[f][i]
                != ',' by {
                assert(after[f] == before[f]);
            }
        } else {
            let after = before.update(before.len() - 1, before.last().push(c));
            assert(s.drop_last().push(c) == s);
            if before.len() > 1 {
                assert(after.drop_last() == before.drop_last());
                let head = joined(before.drop_last()) + seq![','];
                assert(head + before.last().push(c) =~= (head + before.last()).push(c));
            } else {
                assert(after[0] == before[0].push(c));
            }
            assert(joined(after) == s);
            assert forall|f: int, i: int|
                0 <= f < after.len() && 0 <= i < after[f].len() implies #[trigger] after[f][i]
                != ',' by {
                if f < before.len() - 1 {
                    assert(after[f] == before[f]);
                } else if i < before.last().len() {
                    assert(after[f][i] == before[f][i]);
                }
            }
        }
    } else {
        assert(joined(fields(s)) =~= s);
    }
}

/// A text without white space at either end is a part of the text it was
/// trimmed from: what was removed in front and behind is white space only,
/// and what is left neither starts nor ends with white space.
pub proof fn lemma_trimmed(s: Seq<char>)
    ensures
        exists|a: int, b: int|
            0 <= a <= b <= s.len() && #[trigger] s.subrange(a, b) == trimmed(s) && (forall|
                i: int,
            |
                0 <= i < a || b <= i < s.len() ==> is_space(#[trigger] s[i])),
        trimmed(s).len() > 0 ==> !is_space(trimmed(s)[0]) && !is_space(trimmed(s).last()),
{
    lemma_trim_start(s);
    let a = choose|a: int|
        0 <= a <= s.len() && #[trigger] s.subrange(a, s.len() as int) == trim_start(s) && (forall|
            i: int,
        |
            0 <= i < a ==> is_space(#[trigger] s[i]));
    let t = trim_start(s);
    lemma_trim_end(t);
    let n = choose|n: int|
        0 <= n <= t.len() && #[trigger] t.subrange(0, n) == trim_end(t) && (forall|i: int|
            n <= i < t.len() ==> is_space(#[trigger] t[i]));
    assert(s.subrange(a, a + n) =~= trimmed(s));
    assert forall|i: int| 0 <= i < a || a + n <= i < s.len() implies is_space(
        #[trigger] s[i],
    ) by {
        if i >= a + n {
            assert(t[i - a] == s[i]);
        }
    }
    if trimmed(s).len() > 0 {
        assert(trimmed(s)[0] == t[0]);
    }
}

/// What `trim_start` removes is white space, and what it leaves does not
/// start with white space.
pub proof fn lemma_trim_start(s: Seq<char>)
    ensures
        exists|a: int|
            0 <= a <= s.len() && #[trigger] s.subrange(a, s.len() as int) == trim_start(s)
                && (forall|i: int| 0 <= i < a ==> is_space(#[trigger] s[i])),
        trim_start(s).len() > 0 ==> !is_space(trim_start(s)[0]),
    decreases s.len(),
{
    if s.len() > 0 && is_space(s[0]) {
        let r = s.drop_first();
        lemma_trim_start(r);
        let a = choose|a: int|
            0 <= a <= r.len() && #[trigger] r.subrange(a, r.len() as int) == trim_start(r)
                && (forall|i: int| 0 <= i < a ==> is_space(#[trigger] r[i]));
        assert(s.subrange(a + 1, s.len() as int) =~= r.subrange(a, r.len() as int));
        assert forall|i: int| 0 <= i < a + 1 implies is_space(#[trigger] s[i]) by {
            if i > 0 {
                assert(r[i - 1] == s[i]);
            }
        }
    } else {
        assert(s.subrange(0, s.len() as int) =~= s);
    }
}

/// What `trim_end` removes is white space, and what it leaves does not end
/// with white space.
pub proof fn lemma_trim_end(s: Seq<char>)
    ensures
        exists|n: int|
            0 <= n <= s.len() && #[trigger] s.subrange(0, n) == trim_end(s) && (forall|i: int|
                n <= i < s.len() ==> is_space(#[trigger] s[i])),
        trim_end(s).len() > 0 ==> !is_space(trim_end(s).last()),
    decreases s.len(),
{
    if s.len() > 0 && is_space(s.last()) {
        let r = s.drop_last();
        lemma_trim_end(r);
        let n = choose|n: int|
            0 <= n <= r.len() && #[trigger] r.subrange(0, n) == trim_end(r) && (forall|i: int|
                n <= i < r.len() ==> is_space(#[trigger] r[i]));
        assert(s.subrange(0, n) =~= r.subrange(0, n));
        assert forall|i: int| n <= i < s.len() implies is_space(#[trigger] s[i]) by {
            if i < r.len() {
                assert(r[i] == s[i]);
            }
        }
    } else {
        assert(s.subrange(0, s.len() as int) =~= s);
    }
}

/// The value of a sequence of digits is at least the value of each of its
/// prefixes.
pub proof fn lemma_digits_prefix(s: Seq<char>, k: int)
    requires
        0 <= k <= s.len(),
    ensures
        digits_value(s.take(k)) <= digits_value(s),
    decreases s.len(),
{
    if k < s.len() {
        lemma_digits_prefix(s.drop_last(), k);
        assert(s.drop_last().take(k) == s.take(k));
    } else {
        assert(s.take(k) == s);
    }
}

/// The characters of a string.
pub fn chars_of(s: &str) -> (v: Vec<char>)
    ensures
        v@ == s@,
{
    broadcast use vstd::string::group_string_axioms;

    let mut v: Vec<char> = Vec::new();
    let mut it = s.chars();
    loop
        invariant
            v@ + it.remaining() == s@,
            it.decrease() is Some,
        ensures
            v@ == s@,
        decreases it.decrease()->0,
    {
        match it.next() {
            Some(c) => {
                v.push(c);
            },
            None => {
                break ;
            },
        }
    }
    v
}

/// Whether a character is white space.
pub fn is_whitespace(c: char) -> (b: bool)
    ensures
        b == is_space(c),
{
    let u: u32 = c as u32;
    (0x09 <= u && u <= 0x0d) || u == 0x20 || u == 0x85 || u == 0xa0 || u == 0x1680 || (0x2000 <= u
        && u <= 0x200a) || u == 0x2028 || u == 0x2029 || u == 0x202f || u == 0x205f || u
        == 0x3000
}

/// The number that the characters from `from` up to `to` write.
pub fn parse_number(chars: &Vec<char>, from: usize, to: usize) -> (r: Option<u32>)
    requires
        from <= to <= chars.len(),
    ensures
        r == number_of(chars@.subrange(from as int, to as int)),
{
    let ghost text = chars@.subrange(from as int, to as int);
    let mut start: usize = from;
    if start < to && chars[start] == '+' {
        start += 1;
    }
    let ghost d = chars@.subrange(start as int, to as int);
    proof {
        assert(d =~= unsigned_part(text));
    }
    if start == to {
        return None;
    }
    let mut value: u64 = 0;
    let mut i: usize = start;
    while i < to
        invariant
            from <= start <= i <= to <= chars.len(),
            text == chars@.subrange(from as int, to as int),
            d == chars@.subrange(start as int, to as int),
            d == unsigned_part(text),
            d.len() > 0,
            all_digits(d.take(i - start)),
            value == digits_value(d.take(i - start)),
            value <= u32::MAX,
        decreases to - i,
    {
        let c: char = chars[i];
        let u: u32 = c as u32;
        proof {
            assert(d[i - start] == c);
            assert(d.take(i - start + 1).drop_last() == d.take(i - start));
            lemma_digits_prefix(d, i - start + 1);
        }
        if u < 0x30 || u > 0x39 {
            assert(!is_digit(d[i - start]));
            return None;
        }
        value = value * 10 + (u - 0x30) as u64;
        proof {
            assert(value == digits_value(d.take(i - start + 1)));
            assert forall|k: int| 0 <= k < i - start + 1 implies is_digit(
                #[trigger] d.take(i - start + 1)[k],
            ) by {
                if k < i - start {
                    assert(d.take(i - start)[k] == d.take(i - start + 1)[k]);
                }
            }
        }
        if value > 0xffff_ffff {
            return None;
        }
        i += 1;
    }
    proof {
        assert(d.take(d.len() as int) == d);
    }
    Some(value as u32)
}

/// The value of one entry of a list.
pub fn parse_entry(chars: &Vec<char>) -> (r: u32)
    ensures
        r == entry_value(chars@),
{
    let len: usize = chars.len();
    let mut a: usize = 0;
    proof {
        assert(chars@.subrange(0, len as int) == chars@);
    }
    while a < len && is_whitespace(chars[a])
        invariant
            a <= len == chars.len(),
            trim_start(chars@) == trim_start(chars@.subrange(a as int, len as int)),
        decreases len - a,
    {
        proof {
            assert(chars@.subrange(a as int, len as int).drop_first() == chars@.subrange(
                a + 1,
                len as int,
            ));
        }
        a += 1;
    }
    let mut b: usize = len;
    while b > a && is_whitespace(chars[b - 1])
        invariant
            a <= b <= len == chars.len(),
            trim_start(chars@) == chars@.subrange(a as int, len as int),
            trimmed(chars@) == trim_end(chars@.subrange(a as int, b as int)),
        decreases b - a,
    {
        proof {
            assert(chars@.subrange(a as int, b as int).drop_last() == chars@.subrange(
                a as int,
                b - 1,
            ));
        }
        b -= 1;
    }
    match parse_number(chars, a, b) {
        Some(n) => n,
        None => 0,
    }
}

/// The numbers of a list of entries separated by commas. An entry that is not
/// a number counts as zero.
pub fn parse_list(chars: &Vec<char>) -> (values: Vec<u32>)
    ensures
        values@ == list_values(chars@),
{
    let mut values: Vec<u32> = Vec::new();
    let mut current: Vec<char> = Vec::new();
    let ghost mut done: Seq<Seq<char>> = Seq::empty();
    let mut i: usize = 0;
    proof {
        assert(chars@.take(0) =~= Seq::<char>::empty());
        assert(fields(chars@.take(0)) =~= done.push(current@));
        assert(values@ =~= done.map_values(|field: Seq<char>| entry_value(field)));
    }
    while i < chars.len()
        invariant
            i <= chars.len(),
            fields(chars@.take(i as int)) == done.push(current@),
            values@ == done.map_values(|field: Seq<char>| entry_value(field)),
        decreases chars.len() - i,
    {
        let c: char = chars[i];
        proof {
            assert(chars@.take(i + 1).drop_last() == chars@.take(i as int));
            assert(chars@.take(i + 1).last() == c);
        }
        if c == ',' {
            let value: u32 = parse_entry(&current);
            proof {
                done = done.push(current@);
            }
            values.push(value);
            current = Vec::new();
            proof {
                assert(values@ =~= done.map_values(|field: Seq<char>| entry_value(field)));
                assert(fields(chars@.take(i + 1)) =~= done.push(current@));
            }
        } else {
            current.push(c);
            proof {
                assert(fields(chars@.take(i + 1)) =~= done.push(current@));
            }
        }
        i += 1;
    }
    let value: u32 = parse_entry(&current);
    values.push(value);
    proof {
        assert(chars@.take(chars.len() as int) == chars@);
        assert(values@ =~= list_values(chars@));
    }
    values
}

/// Whether the characters spell the word.
pub fn spells(chars: &Vec<char>, word: &str) -> (b: bool)
    ensures
        b == (chars@ == word@),
{
    let letters: Vec<char> = chars_of(word);
    if letters.len() != chars.len() {
        return false;
    }
    let mut i: usize = 0;
    while i < chars.len()
        invariant
            i <= chars.len() == letters.len(),
            letters@ == word@,
            forall|k: int| 0 <= k < i ==> chars[k] == letters[k],
        decreases chars.len() - i,
    {
        if chars[i] != letters[i] {
            return false;
        }
        i += 1;
    }
    proof {
        assert(chars@ =~= letters@);
    }
    true
}

/// The truth value that an entry stands for: `true`, `True`, `t`, `yes`,
/// `Yes` and `y` are true, `false`, `False`, `f`, `no`, `No` and `n` are
/// false, anything else is neither.
pub fn read_option(entry: &str) -> (r: Option<bool>)
    ensures
        r == option_value(entry@),
{
    let chars: Vec<char> = chars_of(entry);
    if spells(&chars, "true") || spells(&chars, "True") || spells(&chars, "t") || spells(
        &chars,
        "yes",
    ) || spells(&chars, "Yes") || spells(&chars, "y") {
        Some(true)
    } else if spells(&chars, "false") || spells(&chars, "False") || spells(&chars, "f") || spells(
        &chars,
        "no",
    ) || spells(&chars, "No") || spells(&chars, "n") {
        Some(false)
    } else {
        None
    }
}

/// The list of numbers stored under `section` and `key`. Entries are
/// separated by commas; an entry that is not a number counts as zero.
pub fn parse_config_array(config: &Ini, section: &str, key: &str) -> (r: Result<
    Vec<u32>,
    ConfigError,
>)
    ensures
        match r {
            Ok(values) => ini_entries(*config).contains_key((section@, key@)) && values@
                == list_values(ini_entries(*config)[(section@, key@)]),
            Err(e) => e == ConfigError::MissingEntry && !ini_entries(*config).contains_key(
                (section@, key@),
            ),
        },
{
    match ini_get(config, section, key) {
        Some(entry) => {
            let chars: Vec<char> = chars_of(entry.as_str());
            Ok(parse_list(&chars))
        },
        None => Err(ConfigError::MissingEntry),
    }
}

/// The truth value stored under `section` and `key`. A value that is none of
/// the accepted spellings counts as false.
pub fn parse_config_option(config: &Ini, section: &str, key: &str) -> (r: Result<
    bool,
    ConfigError,
>)
    ensures
        match r {
            Ok(flag) => ini_entries(*config).contains_key((section@, key@)) && flag == (
            option_value(ini_entries(*config)[(section@, key@)]) == Some(true)),
            Err(e) => e == ConfigError::MissingEntry && !ini_entries(*config).contains_key(
                (section@, key@),
            ),
        },
{
    match ini_get(config, section, key) {
        Some(entry) => {
            match read_option(entry.as_str()) {
                Some(flag) => Ok(flag),
                None => Ok(false),
            }
        },
        None => Err(ConfigError::MissingEntry),
    }
}

/// The number stored under `section` and `key`.
pub fn parse_config_u32(config: &Ini, section: &str, key: &str) -> (r: Result<u32, ConfigError>)
    ensures
        match r {
            Ok(n) => ini_entries(*config).contains_key((section@, key@)) && number_of(
                ini_entries(*config)[(section@, key@)],
            ) == Some(n),
            Err(e) => if ini_entries(*config).contains_key((section@, key@)) {
                e == ConfigError::MalformedNumber && number_of(
                    ini_entries(*config)[(section@, key@)],
                ) is None
            } else {
                e == ConfigError::MissingEntry
            },
        },
{
    match ini_get(config, section, key) {
        Some(entry) => {
            let chars: Vec<char> = chars_of(entry.as_str());
            proof {
                assert(chars@.subrange(0, chars.len() as int) == chars@);
            }
            match parse_number(&chars, 0, chars.len()) {
                Some(n) => Ok(n),
                None => Err(ConfigError::MalformedNumber),
            }
        },
        None => Err(ConfigError::MissingEntry),
    }
}

/// The value under a section and a key, where the configuration has one.
pub open spec fn entry_of(config: Ini, section: &str, key: &str) -> Option<Seq<char>> {
    if ini_entries(config).contains_key((section@, key@)) {
        Some(ini_entries(config)[(section@, key@)])
    } else {
        None
    }
}

/// The first reason, if any, for which a configuration holds no sweep: an
/// entry is missing, or the initial seed is not a number.
pub open spec fn input_fault(config: Ini) -> Option<ConfigError> {
    if entry_of(config, "simulation_params", "substrate_lengths") is None || entry_of(
        config,
        "simulation_params",
        "k_neighbours",
    ) is None || entry_of(config, "simulation_params", "seeds") is None || entry_of(
        config,
        "options",
        "periodic_bc",
    ) is None || entry_of(config, "options", "init_seed") is None {
        Some(ConfigError::MissingEntry)
    } else if number_of(entry_of(config, "options", "init_seed")->0) is None {
        Some(ConfigError::MalformedNumber)
    } else {
        None
    }
}

impl InputParams {
    /// The parameters of the sweep that a configuration holds.
    pub fn new(config: &Ini) -> (r: Result<InputParams, ConfigError>)
        ensures
            match r {
                Ok(params) => {
                    &&& input_fault(*config) is None
                    &&& params.lengths@ == list_values(
                        entry_of(*config, "simulation_params", "substrate_lengths")->0,
                    )
                    &&& params.k_neighbours@ == list_values(
                        entry_of(*config, "simulation_params", "k_neighbours")->0,
                    )
                    &&& params.seeds@ == list_values(
                        entry_of(*config, "simulation_params", "seeds")->0,
                    )
                    &&& params.periodic_bc == (option_value(
                        entry_of(*config, "options", "periodic_bc")->0,
                    ) == Some(true))
                    &&& Some(params.init_seed) == number_of(
                        entry_of(*config, "options", "init_seed")->0,
                    )
                },
                Err(e) => input_fault(*config) == Some(e),
            },
    {
        let lengths: Vec<u32> = match parse_config_array(
            config,
            "simulation_params",
            "substrate_lengths",
        ) {
            Ok(values) => values,
            Err(e) => {
                return Err(e);
            },
        };
        let k_neighbours: Vec<u32> = match parse_config_array(
            config,
            "simulation_params",
            "k_neighbours",
        ) {
            Ok(values) => values,
            Err(e) => {
                return Err(e);
            },
        };
        let seeds: Vec<u32> = match parse_config_array(config, "simulation_params", "seeds") {
            Ok(values) => values,
            Err(e) => {
                return Err(e);
            },
        };
        let periodic_bc: bool = match parse_config_option(config, "options", "periodic_bc") {
            Ok(flag) => flag,
            Err(e) => {
                return Err(e);
            },
        };
        let init_seed: u32 = match parse_config_u32(config, "options", "init_seed") {
            Ok(n) => n,
            Err(e) => {
                return Err(e);
            },
        };
        Ok(InputParams { lengths, k_neighbours, seeds, periodic_bc, init_seed })
    }
}

} // verus!
