//! Text output as synthetic keyboard input: the transcript becomes a sequence
//! of Unicode key-down/key-up events, one pair per UTF-16 code unit, with
//! every line ending typed as a carriage return.
use vstd::prelude::*;
use crate::error::AppError;
use crate::text::{chars_of, decimal, decimal_string, is_blank, is_blank_str, owned};

verus! {

/// How many input events are handed to the OS at once. Even, so a chunk never
/// separates a key-down from its key-up.
pub const INPUTS_PER_CHUNK: usize = 128;

/// One synthetic key event carrying a UTF-16 code unit.
#[derive(Clone, Copy, Debug, PartialEq, Eq, Structural)]
pub struct UnicodeEvent {
    pub code_unit: u16,
    pub key_up: bool,
}

/// `s` with every line ending ("\r\n", a lone '\r' or a lone '\n') turned
/// into a single '\r', scanning from the front.
pub open spec fn line_normalized(s: Seq<char>) -> Seq<char>
    decreases s.len(),
{
    if s.len() == 0 {
        s
    } else if s.len() >= 2 && s[0] == '\r' && s[1] == '\n' {
        seq!['\r'] + line_normalized(s.skip(2))
    } else if s[0] == '\r' || s[0] == '\n' {
        seq!['\r'] + line_normalized(s.skip(1))
    } else {
        seq![s[0]] + line_normalized(s.skip(1))
    }
}

/// The UTF-16 encoding of one character: one unit below U+10000, otherwise
/// a high and a low surrogate.
pub open spec fn utf16(c: char) -> Seq<u16> {
    let u = c as u32;
    if u < 0x10000 {
        seq![u as u16]
    } else {
        seq![(0xD800 + (u - 0x10000) / 0x400) as u16, (0xDC00 + (u - 0x10000) % 0x400) as u16]
    }
}

/// The UTF-16 encoding of `s`.
pub open spec fn utf16_units(s: Seq<char>) -> Seq<u16>
    decreases s.len(),
{
    if s.len() == 0 {
        Seq::empty()
    } else {
        utf16_units(s.drop_last()) + utf16(s.last())
    }
}

/// The events that type `units`: a key-down then a key-up for each unit.
pub open spec fn key_events_for(units: Seq<u16>, events: Seq<UnicodeEvent>) -> bool {
    &&& events.len() == 2 * units.len()
    &&& forall|i: int|
        0 <= i < units.len() ==> #[trigger] events[2 * i] == (UnicodeEvent {
            code_unit: units[i],
            key_up: false,
        }) && events[2 * i + 1] == (UnicodeEvent { code_unit: units[i], key_up: true })
}

fn normalize_lines(v: &Vec<char>) -> (r: Vec<char>)
    ensures
        r@ == line_normalized(v@),
{
    let n = v.len();
    let mut out: Vec<char> = Vec::new();
    let mut i: usize = 0;
    assert(v@.skip(0) == v@);
    while i < n
        invariant
            i <= n == v@.len(),
            line_normalized(v@) == out@ + line_normalized(v@.skip(i as int)),
        decreases n - i,
    {
        let ghost rest = v@.skip(i as int);
        let c = v[i];
        if c == '\r' && i + 1 < n && v[i + 1] == '\n' {
            assert(rest[0] == c && rest[1] == v@[i + 1]);
            assert(rest.skip(2) == v@.skip(i + 2));
            out.push('\r');
            i = i + 2;
        } else if c == '\r' || c == '\n' {
            assert(rest[0] == c);
            assert(rest.skip(1) == v@.skip(i + 1));
            out.push('\r');
            i = i + 1;
        } else {
            assert(rest[0] == c);
            assert(rest.skip(1) == v@.skip(i + 1));
            out.push(c);
            i = i + 1;
        }
    }
    assert(v@.skip(n as int).len() == 0);
    out
}

fn encode_utf16(c: char) -> (r: (u16, Option<u16>))
    ensures
        utf16(c) == match r.1 {
            Some(low) => seq![r.0, low],
            None => seq![r.0],
        },
{
    let u = c as u32;
    if u < 0x10000 {
        (u as u16, None)
    } else {
        let v = u - 0x10000;
        assert(v < 0x100000) by {
            assert(u <= 0x10FFFF);
        }
        (((0xD800 + v / 0x400) as u16), Some((0xDC00 + v % 0x400) as u16))
    }
}

/// Whether position `i` of `s` ends a line: a '\r', or a '\n' that does
/// not complete a "\r\n".
pub open spec fn ends_line_at(s: Seq<char>, i: int) -> bool {
    s[i] == '\r' || (s[i] == '\n' && (i == 0 || s[i - 1] != '\r'))
}

/// The number of line endings in `s` at positions `i` and later.
pub open spec fn line_endings_from(s: Seq<char>, i: int) -> nat
    decreases s.len() - i,
{
    if i < 0 || i >= s.len() {
        0
    } else {
        (if ends_line_at(s, i) {
            1nat
        } else {
            0nat
        }) + line_endings_from(s, i + 1)
    }
}

/// The number of carriage returns in `t`.
pub open spec fn returns_in(t: Seq<char>) -> nat
    decreases t.len(),
{
    if t.len() == 0 {
        0
    } else {
        returns_in(t.drop_last()) + if t.last() == '\r' {
            1nat
        } else {
            0nat
        }
    }
}

/// The number of carriage-return code units (13) in `u`.
pub open spec fn return_units_in(u: Seq<u16>) -> nat
    decreases u.len(),
{
    if u.len() == 0 {
        0
    } else {
        return_units_in(u.drop_last()) + if u.last() == 13 {
            1nat
        } else {
            0nat
        }
    }
}

proof fn lemma_returns_in_add(a: Seq<char>, b: Seq<char>)
    ensures
        returns_in(a + b) == returns_in(a) + returns_in(b),
    decreases b.len(),
{
    if b.len() == 0 {
        assert(a + b =~= a);
    } else {
        lemma_returns_in_add(a, b.drop_last());
        assert((a + b).drop_last() =~= a + b.drop_last());
    }
}

proof fn lemma_return_units_in_add(a: Seq<u16>, b: Seq<u16>)
    ensures
        return_units_in(a + b) == return_units_in(a) + return_units_in(b),
    decreases b.len(),
{
    if b.len() == 0 {
        assert(a + b =~= a);
    } else {
        lemma_return_units_in_add(a, b.drop_last());
        assert((a + b).drop_last() =~= a + b.drop_last());
    }
}

/// Counting line endings from position `i` of `s` gives the same as from
/// the matching position of `s.skip(k)`, unless cutting at `k` splits a
/// "\r\n" (which would turn its '\n' into a line ending of its own).
proof fn lemma_line_endings_skip(s: Seq<char>, k: int, i: int)
    requires
        0 <= k <= i <= s.len(),
        i > k || k == 0 || k >= s.len() || s[k - 1] != '\r' || s[k] != '\n',
    ensures
        line_endings_from(s, i) == line_endings_from(s.skip(k), i - k),
    decreases s.len() - i,
{
    if i < s.len() {
        let t = s.skip(k);
        assert(t[i - k] == s[i]);
        if i - k > 0 {
            assert(t[i - k - 1] == s[i - 1]);
        }
        assert(ends_line_at(s, i) == ends_line_at(t, i - k));
        lemma_line_endings_skip(s, k, i + 1);
    }
}

proof fn lemma_one_return(c: char)
    ensures
        returns_in(seq![c]) == if c == '\r' {
            1nat
        } else {
            0nat
        },
{
    assert(seq![c].drop_last() =~= Seq::<char>::empty());
    assert(returns_in(Seq::<char>::empty()) == 0);
    assert(seq![c].last() == c);
}

/// Normalizing line endings leaves one carriage return per line ending.
proof fn lemma_normalized_returns(s: Seq<char>)
    ensures
        returns_in(line_normalized(s)) == line_endings_from(s, 0),
    decreases s.len(),
{
    if s.len() > 0 {
        if s.len() >= 2 && s[0] == '\r' && s[1] == '\n' {
            lemma_normalized_returns(s.skip(2));
            lemma_returns_in_add(seq!['\r'], line_normalized(s.skip(2)));
            lemma_one_return('\r');
            lemma_line_endings_skip(s, 2, 2);
            assert(line_endings_from(s, 0) == 1 + line_endings_from(s, 1));
            assert(!ends_line_at(s, 1));
        } else {
            lemma_normalized_returns(s.skip(1));
            let c = if s[0] == '\r' || s[0] == '\n' {
                '\r'
            } else {
                s[0]
            };
            lemma_returns_in_add(seq![c], line_normalized(s.skip(1)));
            lemma_one_return(c);
            lemma_line_endings_skip(s, 1, 1);
        }
    }
}

/// A character's UTF-16 units hold a carriage return exactly when the
/// character is one.
proof fn lemma_utf16_returns(c: char)
    ensures
        return_units_in(utf16(c)) == if c == '\r' {
            1nat
        } else {
            0nat
        },
{
    let u = utf16(c);
    assert(return_units_in(Seq::<u16>::empty()) == 0);
    if (c as u32) < 0x10000 {
        assert(u.drop_last() =~= Seq::<u16>::empty());
        assert(u.last() == (c as u32) as u16);
        assert(((c as u32) as u16 == 13) <==> (c as u32 == 13));
        assert((c as u32 == 13) <==> c == '\r');
        assert(return_units_in(u) == return_units_in(u.drop_last()) + if u.last() == 13 {
            1nat
        } else {
            0nat
        });
    } else {
        assert(u.drop_last().drop_last() =~= Seq::<u16>::empty());
        assert(u.last() >= 0xDC00);
        assert(u.drop_last().last() >= 0xD800);
        assert(return_units_in(u.drop_last()) == 0);
        assert(return_units_in(u) == 0);
    }
}

proof fn lemma_units_returns(t: Seq<char>)
    ensures
        return_units_in(utf16_units(t)) == returns_in(t),
    decreases t.len(),
{
    if t.len() > 0 {
        lemma_units_returns(t.drop_last());
        lemma_return_units_in_add(utf16_units(t.drop_last()), utf16(t.last()));
        lemma_utf16_returns(t.last());
    }
}

/// Every line ending of the text is typed as exactly one Enter: among the
/// code units that `unicode_events` types (one key-down/key-up pair each),
/// the carriage returns number the line endings of the text, each "\r\n",
/// lone '\r' and lone '\n' counting once, so two newlines in a row give two.
pub proof fn lemma_one_return_per_line_ending(text: Seq<char>)
    ensures
        return_units_in(utf16_units(line_normalized(text))) == line_endings_from(text, 0),
{
    lemma_normalized_returns(text);
    lemma_units_returns(line_normalized(text));
}

/// `s` without its line-break characters ('\r' and '\n').
pub open spec fn without_breaks(s: Seq<char>) -> Seq<char>
    decreases s.len(),
{
    if s.len() == 0 {
        s
    } else if s[0] == '\r' || s[0] == '\n' {
        without_breaks(s.skip(1))
    } else {
        seq![s[0]] + without_breaks(s.skip(1))
    }
}

/// Normalizing line endings touches nothing but the line breaks: every other
/// character of the text is typed, in its order.
pub proof fn lemma_text_between_breaks_kept(s: Seq<char>)
    ensures
        without_breaks(line_normalized(s)) == without_breaks(s),
    decreases s.len(),
{
    if s.len() > 0 {
        if s.len() >= 2 && s[0] == '\r' && s[1] == '\n' {
            lemma_text_between_breaks_kept(s.skip(2));
            let t = seq!['\r'] + line_normalized(s.skip(2));
            assert(t.skip(1) =~= line_normalized(s.skip(2)));
            assert(s.skip(1).skip(1) =~= s.skip(2));
            assert(s.skip(1)[0] == '\n');
            assert(line_normalized(s) == t);
            assert(without_breaks(t) == without_breaks(t.skip(1)));
            assert(without_breaks(s.skip(1)) == without_breaks(s.skip(1).skip(1)));
            assert(without_breaks(s) == without_breaks(s.skip(1)));
        } else {
            lemma_text_between_breaks_kept(s.skip(1));
            let c = if s[0] == '\r' || s[0] == '\n' {
                '\r'
            } else {
                s[0]
            };
            let t = seq![c] + line_normalized(s.skip(1));
            assert(t.skip(1) =~= line_normalized(s.skip(1)));
            assert(t[0] == c);
            assert(line_normalized(s) == t);
            if c == '\r' {
                assert(without_breaks(t) == without_breaks(t.skip(1)));
                assert(without_breaks(s) == without_breaks(s.skip(1)));
            } else {
                assert(without_breaks(t) == seq![c] + without_breaks(t.skip(1)));
                assert(without_breaks(s) == seq![c] + without_breaks(s.skip(1)));
            }
        }
    }
}

/// The UTF-16 units of a character decode back to it: a unit below
/// U+10000 is the character itself; above, a high surrogate (U+D800 to
/// U+DBFF) and a low surrogate (U+DC00 to U+DFFF) whose ten-bit payloads,
/// put together and added to U+10000, give the character.
pub proof fn lemma_utf16_decodes(c: char)
    ensures
        (c as u32) < 0x10000 ==> utf16(c) == seq![(c as u32) as u16] && !(0xD800 <= (c as u32)
            <= 0xDFFF),
        (c as u32) >= 0x10000 ==> ({
            let u = utf16(c);
            &&& u.len() == 2
            &&& 0xD800 <= u[0] <= 0xDBFF
            &&& 0xDC00 <= u[1] <= 0xDFFF
            &&& 0x10000 + (u[0] - 0xD800) * 0x400 + (u[1] - 0xDC00) == c as u32
        }),
{
    let v = (c as u32) as int;
    assert(v <= 0x10FFFF);
    assert(!(0xD800 <= v <= 0xDFFF));
    if v >= 0x10000 {
        let w = v - 0x10000;
        assert(w == (w / 0x400) * 0x400 + w % 0x400);
        assert(w / 0x400 < 0x400);
    }
}

/// The key events that type `text`: line endings become carriage returns, and
/// every UTF-16 code unit (both halves of a surrogate pair included) gets a
/// key-down followed by its key-up.
pub fn unicode_events(text: &str) -> (events: Vec<UnicodeEvent>)
    ensures
        key_events_for(utf16_units(line_normalized(text@)), events@),
{
    let chars = chars_of(text);
    let normalized = normalize_lines(&chars);
    let mut events: Vec<UnicodeEvent> = Vec::new();
    let ghost mut units: Seq<u16> = Seq::empty();
    let mut i: usize = 0;
    while i < normalized.len()
        invariant
            i <= normalized@.len(),
            normalized@ == line_normalized(text@),
            units == utf16_units(normalized@.take(i as int)),
            key_events_for(units, events@),
        decreases normalized@.len() - i,
    {
        let c = normalized[i];
        assert(normalized@.take(i + 1).drop_last() == normalized@.take(i as int));
        let (first, second) = encode_utf16(c);
        let ghost before = units;
        let ghost ev_before = events@;
        events.push(UnicodeEvent { code_unit: first, key_up: false });
        events.push(UnicodeEvent { code_unit: first, key_up: true });
        proof {
            units = units.push(first);
        }
        assert(key_events_for(units, events@)) by {
            assert forall|k: int| 0 <= k < units.len() implies #[trigger] events@[2 * k] == (
            UnicodeEvent { code_unit: units[k], key_up: false }) && events@[2 * k + 1] == (
            UnicodeEvent { code_unit: units[k], key_up: true }) by {
                if k < before.len() {
                    assert(units[k] == before[k]);
                    assert(ev_before[2 * k] == (UnicodeEvent { code_unit: before[k], key_up: false }));
                    assert(events@[2 * k] == ev_before[2 * k]);
                    assert(events@[2 * k + 1] == ev_before[2 * k + 1]);
                }
            }
        }
        match second {
            Some(low) => {
                let ghost before2 = units;
                let ghost ev_before2 = events@;
                events.push(UnicodeEvent { code_unit: low, key_up: false });
                events.push(UnicodeEvent { code_unit: low, key_up: true });
                proof {
                    units = units.push(low);
                }
                assert(key_events_for(units, events@)) by {
                    assert forall|k: int| 0 <= k < units.len() implies #[trigger] events@[2 * k]
                        == (UnicodeEvent { code_unit: units[k], key_up: false }) && events@[2 * k
                        + 1] == (UnicodeEvent { code_unit: units[k], key_up: true }) by {
                        if k < before2.len() {
                            assert(units[k] == before2[k]);
                            assert(ev_before2[2 * k] == (UnicodeEvent {
                                code_unit: before2[k],
                                key_up: false,
                            }));
                            assert(events@[2 * k] == ev_before2[2 * k]);
                            assert(events@[2 * k + 1] == ev_before2[2 * k + 1]);
                        }
                    }
                }
                assert(units == before + utf16(c));
            },
            None => {
                assert(units == before + utf16(c));
            },
        }
        i = i + 1;
    }
    assert(normalized@.take(normalized@.len() as int) == normalized@);
    events
}

/// Events typed for one text come in down/up pairs: any stretch that starts
/// and ends on an even index (such as a chunk of `INPUTS_PER_CHUNK` events, or
/// the final shorter chunk) starts with a key-down, ends with the matching
/// key-up, and has even length.
pub proof fn lemma_even_chunks_keep_pairs(
    units: Seq<u16>,
    events: Seq<UnicodeEvent>,
    start: int,
    end: int,
)
    requires
        key_events_for(units, events),
        start % 2 == 0,
        end % 2 == 0,
        0 <= start < end <= events.len(),
    ensures
        !events[start].key_up,
        events[end - 1].key_up,
        events[start].code_unit == events[start + 1].code_unit,
        events.len() % 2 == 0,
{
    let a = start / 2;
    let b = (end - 2) / 2;
    assert(events[2 * a] == (UnicodeEvent { code_unit: units[a], key_up: false }));
    assert(events[2 * b] == (UnicodeEvent { code_unit: units[b], key_up: false }));
    assert(events[2 * b + 1] == (UnicodeEvent { code_unit: units[b], key_up: true }));
}

/// Judges one batch of input events handed to the OS: all of them must have
/// been inserted, otherwise the partial insertion is reported (and not
/// retried against a window that may have changed).
pub fn check_inserted(inserted: usize, expected: usize) -> (r: Result<(), AppError>)
    ensures
        r is Ok <==> inserted == expected,
        r matches Err(e) ==> (e matches AppError::Output(m) && m@ == "Windows inserted "@ + decimal(
            inserted as nat,
        ) + " of "@ + decimal(expected as nat)
            + " text-input events; the target may be elevated."@),
{
    if inserted == expected {
        return Ok(());
    }
    let m = owned("Windows inserted ").concat(decimal_string(inserted as u64).as_str()).concat(
        " of ",
    ).concat(decimal_string(expected as u64).as_str()).concat(
        " text-input events; the target may be elevated.",
    );
    Err(AppError::Output(m))
}

/// Refuses to type a transcript that is empty or only whitespace.
pub fn check_paste_text(text: &str) -> (r: Result<(), AppError>)
    ensures
        r is Ok <==> !is_blank(text@),
        r matches Err(e) ==> (e matches AppError::Output(m) && m@ == "Cannot paste empty text."@),
{
    if is_blank_str(text) {
        Err(AppError::Output(owned("Cannot paste empty text.")))
    } else {
        Ok(())
    }
}

} // verus!
