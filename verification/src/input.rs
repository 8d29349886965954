//! The text input parser.
//!
//! An authored input document is a key/value text document: each key is a
//! witness index written in decimal (leading and trailing whitespace
//! tolerated), each value a hex-written field element. Parsing is
//! fail-fast: the first faulty entry aborts the whole parse with an error
//! naming the offending key, and no partial witness map is returned.
use vstd::prelude::*;

use crate::errors::{CliError, FilesystemError};
use crate::witness::{map_of_kv, FieldElement, WitnessMap};

verus! {

/// Whitespace tolerated around a witness index key: the Unicode
/// whitespace codepoints, the set str::trim removes.
pub open spec fn is_space(c: char) -> bool {
    ||| c == ' ' || c == '\t' || c == '\n' || c == '\r'
    ||| c == '\u{0B}' || c == '\u{0C}' || c == '\u{85}' || c == '\u{A0}' || c == '\u{1680}'
    ||| '\u{2000}' as u32 <= c as u32 && c as u32 <= '\u{200A}' as u32
    ||| c == '\u{2028}' || c == '\u{2029}' || c == '\u{202F}' || c == '\u{205F}' || c == '\u{3000}'
}

/// A decimal digit.
pub open spec fn is_digit(c: char) -> bool {
    '0' as u32 <= c as u32 && c as u32 <= '9' as u32
}

/// The numeric value of a decimal digit.
pub open spec fn digit_val(c: char) -> int {
    c as u32 - '0' as u32
}

/// The key with its leading whitespace removed.
pub open spec fn trim_start_spec(s: Seq<char>) -> Seq<char>
    decreases s.len(),
{
    if s.len() > 0 && is_space(s[0]) {
        trim_start_spec(s.drop_first())
    } else {
        s
    }
}

/// The key with its trailing whitespace removed.
pub open spec fn trim_end_spec(s: Seq<char>) -> Seq<char>
    decreases s.len(),
{
    if s.len() > 0 && is_space(s.last()) {
        trim_end_spec(s.drop_last())
    } else {
        s
    }
}

/// The key with whitespace removed on both sides.
pub open spec fn trimmed(s: Seq<char>) -> Seq<char> {
    trim_end_spec(trim_start_spec(s))
}

/// Every character is a decimal digit.
pub open spec fn all_digits(s: Seq<char>) -> bool {
    forall|i: int| 0 <= i < s.len() ==> is_digit(#[trigger] s[i])
}

/// The value of a digit string, most significant digit first.
pub open spec fn digits_val(s: Seq<char>) -> int
    decreases s.len(),
{
    if s.len() == 0 {
        0
    } else {
        digits_val(s.drop_last()) * 10 + digit_val(s.last())
    }
}

/// What a witness index key means: after trimming and an optional leading
/// plus sign, a non-empty run of decimal digits whose value fits in 32
/// bits; anything else is no index.
pub open spec fn parse_index_spec(s: Seq<char>) -> Option<u32> {
    let t = trimmed(s);
    let d = if t.len() >= 1 && t[0] == '+' {
        t.drop_first()
    } else {
        t
    };
    if d.len() == 0 {
        None
    } else if !all_digits(d) {
        None
    } else if digits_val(d) > u32::MAX {
        None
    } else {
        Some(digits_val(d) as u32)
    }
}

/// Whether `c` is whitespace tolerated around a key.
fn is_space_char(c: char) -> (r: bool)
    ensures
        r == is_space(c),
{
    let v = c as u32;
    c == ' ' || c == '\t' || c == '\n' || c == '\r' || v == 0x0B || v == 0x0C || v == 0x85
        || v == 0xA0 || v == 0x1680 || (0x2000 <= v && v <= 0x200A) || v == 0x2028 || v == 0x2029
        || v == 0x202F || v == 0x205F || v == 0x3000
}

proof fn lemma_trim_start(s: Seq<char>, lo: int)
    requires
        0 <= lo <= s.len(),
        forall|j: int| 0 <= j < lo ==> is_space(#[trigger] s[j]),
        lo == s.len() || !is_space(s[lo]),
    ensures
        trim_start_spec(s) == s.skip(lo),
    decreases lo,
{
    if lo == 0 {
        assert(trim_start_spec(s) =~= s.skip(0));
    } else {
        assert(is_space(s[0]));
        lemma_trim_start(s.drop_first(), lo - 1);
        assert(s.drop_first().skip(lo - 1) =~= s.skip(lo));
    }
}

proof fn lemma_trim_end(s: Seq<char>, hi: int)
    requires
        0 <= hi <= s.len(),
        forall|j: int| hi <= j < s.len() ==> is_space(#[trigger] s[j]),
        hi == 0 || !is_space(s[hi - 1]),
    ensures
        trim_end_spec(s) == s.take(hi),
    decreases s.len(),
{
    if hi == s.len() {
        if s.len() > 0 && is_space(s.last()) {
            assert(!is_space(s[hi - 1]));
            assert(false);
        }
        assert(trim_end_spec(s) =~= s.take(hi));
    } else {
        assert(is_space(s.last()));
        lemma_trim_end(s.drop_last(), hi);
        assert(s.drop_last().take(hi) =~= s.take(hi));
    }
}

proof fn lemma_digits_val_nonneg(s: Seq<char>)
    requires
        all_digits(s),
    ensures
        digits_val(s) >= 0,
    decreases s.len(),
{
    if s.len() > 0 {
        lemma_digits_val_nonneg(s.drop_last());
        assert(is_digit(s[s.len() - 1]));
        assert(digits_val(s.drop_last()) * 10 >= 0) by (nonlinear_arith)
            requires
                digits_val(s.drop_last()) >= 0,
        ;
    }
}

/// A digit string is worth at least any of its prefixes.
proof fn lemma_digits_val_monotone(s: Seq<char>, j: int)
    requires
        0 <= j <= s.len(),
        all_digits(s),
    ensures
        digits_val(s) >= digits_val(s.take(j)),
    decreases s.len(),
{
    if j == s.len() {
        assert(s.take(j) =~= s);
    } else {
        lemma_digits_val_monotone(s.drop_last(), j);
        assert(s.drop_last().take(j) =~= s.take(j));
        lemma_digits_val_nonneg(s.drop_last());
        assert(is_digit(s[s.len() - 1]));
        assert(digits_val(s.drop_last()) * 10 >= digits_val(s.drop_last())) by (nonlinear_arith)
            requires
                digits_val(s.drop_last()) >= 0,
        ;
    }
}

/// Parses a witness index key: optional surrounding whitespace, optional
/// plus sign, then decimal digits fitting in 32 bits.
#[verifier::loop_isolation(false)]
pub fn parse_witness_index(s: &str) -> (r: Option<u32>)
    ensures
        r == parse_index_spec(s@),
{
    let n = s.unicode_len();
    let mut lo: usize = 0;
    while lo < n && is_space_char(s.get_char(lo))
        invariant
            lo <= n,
            n == s@.len(),
            forall|j: int| 0 <= j < lo ==> is_space(#[trigger] s@[j]),
        decreases n - lo,
    {
        lo = lo + 1;
    }
    let mut hi: usize = n;
    while hi > lo && is_space_char(s.get_char(hi - 1))
        invariant
            lo <= hi <= n,
            n == s@.len(),
            forall|j: int| hi <= j < n ==> is_space(#[trigger] s@[j]),
        decreases hi,
    {
        hi = hi - 1;
    }
    proof {
        lemma_trim_start(s@, lo as int);
        lemma_trim_end(s@.skip(lo as int), hi - lo);
        assert(s@.skip(lo as int).take(hi - lo) =~= s@.subrange(lo as int, hi as int));
        assert(trimmed(s@) == s@.subrange(lo as int, hi as int));
    }
    let mut start = lo;
    if lo < hi && s.get_char(lo) == '+' {
        start = lo + 1;
    }
    let ghost t = trimmed(s@);
    let ghost d = s@.subrange(start as int, hi as int);
    proof {
        if t.len() >= 1 && t[0] == '+' {
            assert(d =~= t.drop_first());
        } else {
            assert(d =~= t);
        }
    }
    if start == hi {
        return None;
    }
    let mut acc: u32 = 0;
    let mut i = start;
    while i < hi
        invariant
            start <= i <= hi,
            hi <= n,
            n == s@.len(),
            d == s@.subrange(start as int, hi as int),
            forall|j: int| start <= j < i ==> is_digit(#[trigger] s@[j]),
            acc == digits_val(s@.subrange(start as int, i as int)),
        decreases hi - i,
    {
        let c = s.get_char(i);
        let cv = c as u32;
        if cv < 48 || cv > 57 {
            proof {
                assert(!is_digit(d[i - start]));
                assert(!all_digits(d));
            }
            return None;
        }
        let dv = cv - 48;
        proof {
            assert(is_digit(s@[i as int]));
            assert(digit_val(s@[i as int]) == dv);
        }
        if acc > (u32::MAX - dv) / 10 {
            proof {
                let pre = s@.subrange(start as int, i + 1);
                assert(pre.drop_last() =~= s@.subrange(start as int, i as int));
                assert(digits_val(pre) == acc * 10 + dv);
                assert(acc * 10 + dv > u32::MAX) by (nonlinear_arith)
                    requires
                        acc > (u32::MAX - dv) / 10,
                        0 <= dv <= 9,
                        0 <= acc <= u32::MAX,
                ;
                if all_digits(d) {
                    lemma_digits_val_monotone(d, i + 1 - start);
                    assert(d.take(i + 1 - start) =~= pre);
                }
            }
            return None;
        }
        proof {
            assert(acc * 10 + dv <= u32::MAX) by (nonlinear_arith)
                requires
                    acc <= (u32::MAX - dv) / 10,
                    0 <= dv <= 9,
                    0 <= acc,
            ;
            let pre = s@.subrange(start as int, i + 1);
            assert(pre.drop_last() =~= s@.subrange(start as int, i as int));
            assert(digits_val(pre) == acc * 10 + dv);
        }
        acc = acc * 10 + dv;
        i = i + 1;
    }
    proof {
        assert(s@.subrange(start as int, hi as int) == d);
        assert(all_digits(d));
        lemma_digits_val_nonneg(d);
        assert(parse_index_spec(s@) == Some(acc));
    }
    Some(acc)
}

/// A hex digit.
pub open spec fn is_hex_digit(c: char) -> bool {
    ||| '0' as u32 <= c as u32 && c as u32 <= '9' as u32
    ||| 'a' as u32 <= c as u32 && c as u32 <= 'f' as u32
    ||| 'A' as u32 <= c as u32 && c as u32 <= 'F' as u32
}

/// The digits of a hex literal: what follows the `0x` prefix, or the whole
/// text when there is none.
pub open spec fn hex_body(s: Seq<char>) -> Seq<char> {
    if s.len() >= 2 && s[0] == '0' && s[1] == 'x' {
        s.skip(2)
    } else {
        s
    }
}

/// A field element literal: hex digits after an optional `0x` prefix.
pub open spec fn is_hex_literal(s: Seq<char>) -> bool {
    forall|i: int| 0 <= i < hex_body(s).len() ==> is_hex_digit(#[trigger] hex_body(s)[i])
}

/// The canonical 32 bytes of the field element a hex literal denotes: the
/// written value reduced into the field. A function of the text alone.
pub uninterp spec fn field_of_hex(s: Seq<char>) -> Seq<u8>;

/// Relies on FieldElement::from_hex of the acir crate: it accepts exactly
/// hex digits after an optional `0x` prefix (an odd count is zero-padded),
/// reduces the value into the field, and its canonical form (to_be_bytes)
/// is 32 big-endian bytes.
#[verifier::external_body]
fn field_bytes_from_hex(s: &str) -> (r: Option<Vec<u8>>)
    ensures
        r is Some <==> is_hex_literal(s@),
        r matches Some(b) ==> b@ == field_of_hex(s@) && b@.len() == 32,
{
    acir::FieldElement::from_hex(s).map(|f| f.to_be_bytes())
}

/// The view of a parsed document entry: the key's characters, and the
/// value's characters where the value is a text node.
pub open spec fn entry_view(p: (String, Option<String>)) -> (Seq<char>, Option<Seq<char>>) {
    (
        p.0@,
        match p.1 {
            Some(t) => Some(t@),
            None => None,
        },
    )
}

/// The top-level entries of a key/value text document, in the document
/// model's order: each key with its value's text where the value is a text
/// node, or marked non-text otherwise; nothing where the document does not
/// parse. A function of the text alone.
pub uninterp spec fn toml_entries_of(s: Seq<char>) -> Option<Seq<(Seq<char>, Option<Seq<char>>)>>;

/// Relies on str::parse::<toml::Table>: a failed parse is reported, a
/// successful one hands over the top-level entries in the table's
/// deterministic order, string values carried through unchanged, values of
/// any other type marked as non-text.
#[verifier::external_body]
fn parse_toml_entries(s: &str) -> (r: Option<Vec<(String, Option<String>)>>)
    ensures
        r is Some <==> toml_entries_of(s@) is Some,
        r matches Some(v) ==> v@.map_values(|p: (String, Option<String>)| entry_view(p))
            == toml_entries_of(s@).unwrap(),
{
    match s.parse::<toml::Table>() {
        Ok(table) => Some(
            table
                .into_iter()
                .map(
                    |(k, v)| match v {
                        toml::Value::String(text) => (k, Some(text)),
                        _ => (k, None),
                    },
                )
                .collect(),
        ),
        Err(_) => None,
    }
}

/// What is wrong with a faulty entry: its key is no witness index, or its
/// value is no hex-written field element.
pub enum EntryFault {
    Index,
    Value,
}

/// The fault of one entry, if any: the key must parse as a witness index,
/// the value must be a text node, and the text must be a hex literal.
pub open spec fn entry_fault(e: (Seq<char>, Option<Seq<char>>)) -> Option<EntryFault> {
    if parse_index_spec(e.0) is None {
        Some(EntryFault::Index)
    } else if e.1 is None {
        Some(EntryFault::Value)
    } else if !is_hex_literal(e.1.unwrap()) {
        Some(EntryFault::Value)
    } else {
        None
    }
}

/// The position of the first faulty entry, if any.
pub open spec fn first_fault(es: Seq<(Seq<char>, Option<Seq<char>>)>) -> Option<int>
    decreases es.len(),
{
    if es.len() == 0 {
        None
    } else if entry_fault(es[0]) is Some {
        Some(0)
    } else {
        match first_fault(es.drop_first()) {
            Some(i) => Some(i + 1),
            None => None,
        }
    }
}

/// The witness entries a fault-free document denotes, in document order.
pub open spec fn parsed_kv(es: Seq<(Seq<char>, Option<Seq<char>>)>) -> Seq<(u32, Seq<u8>)> {
    es.map_values(
        |e: (Seq<char>, Option<Seq<char>>)|
            (parse_index_spec(e.0).unwrap(), field_of_hex(e.1.unwrap())),
    )
}

proof fn lemma_first_fault_found(es: Seq<(Seq<char>, Option<Seq<char>>)>, i: int)
    requires
        0 <= i < es.len(),
        forall|j: int| 0 <= j < i ==> entry_fault(#[trigger] es[j]) is None,
        entry_fault(es[i]) is Some,
    ensures
        first_fault(es) == Some(i),
    decreases i,
{
    if i > 0 {
        assert(entry_fault(es[0]) is None);
        let tail = es.drop_first();
        assert forall|j: int| 0 <= j < i - 1 implies entry_fault(#[trigger] tail[j]) is None by {
            assert(tail[j] == es[j + 1]);
        }
        assert(tail[i - 1] == es[i]);
        lemma_first_fault_found(tail, i - 1);
    }
}

proof fn lemma_first_fault_none(es: Seq<(Seq<char>, Option<Seq<char>>)>)
    requires
        forall|j: int| 0 <= j < es.len() ==> entry_fault(#[trigger] es[j]) is None,
    ensures
        first_fault(es) is None,
    decreases es.len(),
{
    if es.len() > 0 {
        let tail = es.drop_first();
        assert forall|j: int| 0 <= j < tail.len() implies entry_fault(#[trigger] tail[j]) is None by {
            assert(tail[j] == es[j + 1]);
        }
        lemma_first_fault_none(tail);
    }
}

/// Parses document entries into a witness map, fail-fast: the first faulty
/// entry aborts the parse with an error carrying its key, and no partial
/// map is returned. A fault-free document yields the map of all entries,
/// a later entry for an index overwriting an earlier one.
pub fn parse_witness_entries(entries: &Vec<(String, Option<String>)>) -> (r: Result<
    WitnessMap,
    CliError,
>)
    ensures
        ({
            let es = entries@.map_values(|p: (String, Option<String>)| entry_view(p));
            &&& (r is Ok <==> first_fault(es) is None)
            &&& (r matches Ok(w) ==> w.wf() && w@ == map_of_kv(parsed_kv(es)))
            &&& (first_fault(es) matches Some(i) ==> {
                &&& (entry_fault(es[i]) == Some(EntryFault::Index) ==> (r matches Err(e)
                    && e matches CliError::WitnessIndexError(k) && k@ == es[i].0))
                &&& (entry_fault(es[i]) == Some(EntryFault::Value) ==> (r matches Err(e)
                    && e matches CliError::WitnessValueError(k) && k@ == es[i].0))
            })
        }),
{
    let ghost es = entries@.map_values(|p: (String, Option<String>)| entry_view(p));
    let mut w = WitnessMap::new();
    let mut i: usize = 0;
    while i < entries.len()
        invariant
            i <= entries@.len(),
            es == entries@.map_values(|p: (String, Option<String>)| entry_view(p)),
            w.wf(),
            w@ == map_of_kv(parsed_kv(es).take(i as int)),
            forall|j: int| 0 <= j < i ==> entry_fault(#[trigger] es[j]) is None,
        decreases entries@.len() - i,
    {
        let key = &entries[i].0;
        proof {
            assert(es[i as int] == entry_view(entries@[i as int]));
        }
        let index_opt = parse_witness_index(key.as_str());
        if index_opt.is_none() {
            proof {
                lemma_first_fault_found(es, i as int);
            }
            return Err(CliError::WitnessIndexError(String::from_str(key.as_str())));
        }
        let index = index_opt.unwrap();
        match &entries[i].1 {
            None => {
                proof {
                    lemma_first_fault_found(es, i as int);
                }
                return Err(CliError::WitnessValueError(String::from_str(key.as_str())));
            },
            Some(text) => {
                let bytes_opt = field_bytes_from_hex(text.as_str());
                if bytes_opt.is_none() {
                    proof {
                        lemma_first_fault_found(es, i as int);
                    }
                    return Err(CliError::WitnessValueError(String::from_str(key.as_str())));
                }
                let value = FieldElement::from_bytes(bytes_opt.unwrap()).unwrap();
                w.insert(index, value);
                proof {
                    assert(parsed_kv(es)[i as int] == (index, value@));
                    assert(parsed_kv(es).take(i + 1).drop_last() =~= parsed_kv(es).take(i as int));
                    assert(parsed_kv(es).take(i + 1).last() == parsed_kv(es)[i as int]);
                }
            },
        }
        i = i + 1;
    }
    proof {
        lemma_first_fault_none(es);
        assert(parsed_kv(es).take(entries@.len() as int) =~= parsed_kv(es));
    }
    Ok(w)
}

/// Parses a whole input document into a witness map. A document that does
/// not parse as a key/value document fails as an invalid file naming
/// `file_name`; a parsed document goes through the fail-fast entry parse.
pub fn read_inputs(source: &str, file_name: &str) -> (r: Result<WitnessMap, CliError>)
    ensures
        toml_entries_of(source@) is None ==> (r matches Err(e) && e matches CliError::FilesystemError(f)
            && f matches FilesystemError::InvalidTomlFile(n) && n@ == file_name@),
        toml_entries_of(source@) matches Some(es) ==> {
            &&& (r is Ok <==> first_fault(es) is None)
            &&& (r matches Ok(w) ==> w.wf() && w@ == map_of_kv(parsed_kv(es)))
            &&& (first_fault(es) matches Some(i) ==> {
                &&& (entry_fault(es[i]) == Some(EntryFault::Index) ==> (r matches Err(e)
                    && e matches CliError::WitnessIndexError(k) && k@ == es[i].0))
                &&& (entry_fault(es[i]) == Some(EntryFault::Value) ==> (r matches Err(e)
                    && e matches CliError::WitnessValueError(k) && k@ == es[i].0))
            })
        },
{
    match parse_toml_entries(source) {
        None => Err(
            CliError::FilesystemError(
                FilesystemError::InvalidTomlFile(String::from_str(file_name)),
            ),
        ),
        Some(entries) => parse_witness_entries(&entries),
    }
}

} // verus!
