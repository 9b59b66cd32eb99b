//! Comments of a machine-motion program, read as bytes: where a comment
//! ends, what kind of record it makes, and which metadata key it names.
use vstd::prelude::*;
use vstd::slice::slice_subrange;

verus! {

/// Whether the byte ends a comment's text: a line feed or a carriage
/// return, and inside parentheses also the closing parenthesis.
pub open spec fn is_stop(b: u8, in_parentheses: bool) -> bool {
    b == 10 || b == 13 || (in_parentheses && b == 41)
}

/// `end` is the first position from 1 on that holds a stop byte, or the
/// length of `s` if none does.
pub open spec fn is_first_stop(s: Seq<u8>, end: int, in_parentheses: bool) -> bool {
    &&& 1 <= end <= s.len()
    &&& forall|j: int| 1 <= j < end ==> !is_stop(#[trigger] s[j], in_parentheses)
    &&& end < s.len() ==> is_stop(s[end], in_parentheses)
}

/// `s` starts with a semicolon comment whose text ends before `end`: the
/// text runs to the end of the line or of the input, and a carriage return
/// ends the line only together with a line feed.
pub open spec fn semicolon_comment_at(s: Seq<u8>, end: int) -> bool {
    &&& s.len() > 0
    &&& s[0] == 59
    &&& is_first_stop(s, end, false)
    &&& (end < s.len() && s[end] == 13) ==> (end + 1 < s.len() && s[end + 1] == 10)
}

/// `s` starts with a comment in parentheses whose closing parenthesis is at
/// `end`: the text between the parentheses is not empty and holds no line
/// end.
pub open spec fn parentheses_comment_at(s: Seq<u8>, end: int) -> bool {
    &&& s.len() > 0
    &&& s[0] == 40
    &&& is_first_stop(s, end, true)
    &&& 1 < end < s.len()
    &&& s[end] == 41
}

/// The first stop is unique.
proof fn lemma_first_stop_unique(s: Seq<u8>, a: int, b: int, in_parentheses: bool)
    requires
        is_first_stop(s, a, in_parentheses),
        is_first_stop(s, b, in_parentheses),
    ensures
        a == b,
{
    if a < b {
        assert(!is_stop(s[a], in_parentheses));
    }
    if b < a {
        assert(!is_stop(s[b], in_parentheses));
    }
}

fn find_stop(input: &[u8], in_parentheses: bool) -> (end: usize)
    requires
        input@.len() > 0,
    ensures
        is_first_stop(input@, end as int, in_parentheses),
{
    let mut i: usize = 1;
    while i < input.len()
        invariant
            1 <= i <= input@.len(),
            forall|j: int| 1 <= j < i ==> !is_stop(#[trigger] input@[j], in_parentheses),
        decreases input@.len() - i,
    {
        let b = input[i];
        if b == 10 || b == 13 || (in_parentheses && b == 41) {
            return i;
        }
        i = i + 1;
    }
    i
}

/// Reads a comment that starts with a semicolon. Returns the position at
/// which the comment's text ends (the text starts at 1, the rest of the
/// input at the returned position), or nothing where the input does not
/// start with such a comment.
pub fn seimcolon_comment(input: &[u8]) -> (r: Option<usize>)
    ensures
        r is Some ==> semicolon_comment_at(input@, r->0 as int),
        r is None ==> forall|end: int| !semicolon_comment_at(input@, end),
{
    if input.len() == 0 || input[0] != 59 {
        return None;
    }
    let end = find_stop(input, false);
    if end < input.len() && input[end] == 13 {
        if !(end + 1 < input.len() && input[end + 1] == 10) {
            proof {
                assert forall|e: int| !semicolon_comment_at(input@, e) by {
                    if is_first_stop(input@, e, false) {
                        lemma_first_stop_unique(input@, e, end as int, false);
                    }
                }
            }
            return None;
        }
    }
    Some(end)
}

/// Reads a comment in parentheses. Returns the position of the closing
/// parenthesis (the text starts at 1, the rest of the input behind the
/// parenthesis), or nothing where the input does not start with such a
/// comment.
pub fn parentheses_comment(input: &[u8]) -> (r: Option<usize>)
    ensures
        r is Some ==> parentheses_comment_at(input@, r->0 as int),
        r is None ==> forall|end: int| !parentheses_comment_at(input@, end),
{
    if input.len() == 0 || input[0] != 40 {
        return None;
    }
    let end = find_stop(input, true);
    if 1 < end && end < input.len() && input[end] == 41 {
        Some(end)
    } else {
        proof {
            assert forall|e: int| !parentheses_comment_at(input@, e) by {
                if is_first_stop(input@, e, true) {
                    lemma_first_stop_unique(input@, e, end as int, true);
                }
            }
        }
        None
    }
}

/// Reads a comment of either form, the semicolon form first. Returns the
/// position at which the comment's text ends and the position at which the
/// rest of the input starts.
pub fn comment(input: &[u8]) -> (r: Option<(usize, usize)>)
    ensures
        r is Some ==> (if semicolon_comment_at(input@, r.unwrap().0 as int) {
            r.unwrap().1 == r.unwrap().0
        } else {
            parentheses_comment_at(input@, r.unwrap().0 as int) && r.unwrap().1 == r.unwrap().0
                + 1
        }),
        r is None ==> forall|end: int|
            !semicolon_comment_at(input@, end) && !parentheses_comment_at(input@, end),
{
    match seimcolon_comment(input) {
        Some(end) => Some((end, end)),
        None => match parentheses_comment(input) {
            Some(end) => {
                assert(end < input.len());
                Some((end, end + 1))
            },
            None => None,
        },
    }
}

/// The value of a string of decimal digits.
pub open spec fn digits_value(s: Seq<u8>) -> int
    decreases s.len(),
{
    if s.len() == 0 {
        0
    } else {
        digits_value(s.drop_last()) * 10 + (s.last() - 48)
    }
}

/// Every byte is a decimal digit.
pub open spec fn all_digits(s: Seq<u8>) -> bool {
    forall|j: int| 0 <= j < s.len() ==> 48 <= #[trigger] s[j] <= 57
}

/// The digits of a number: the text without a leading plus sign.
pub open spec fn number_digits(s: Seq<u8>) -> Seq<u8> {
    if s.len() > 0 && s[0] == 43 {
        s.subrange(1, s.len() as int)
    } else {
        s
    }
}

/// The number that the text stands for: one or more decimal digits after an
/// optional plus sign, with a value that fits `usize`.
pub open spec fn parsed_number(s: Seq<u8>) -> Option<usize> {
    let d = number_digits(s);
    if d.len() > 0 && all_digits(d) && digits_value(d) <= usize::MAX {
        Some(digits_value(d) as usize)
    } else {
        None
    }
}

proof fn lemma_digits_grow(s: Seq<u8>, k: int)
    requires
        all_digits(s),
        0 <= k <= s.len(),
    ensures
        0 <= digits_value(s.subrange(0, k)) <= digits_value(s),
    decreases s.len() - k,
{
    if k == s.len() {
        assert(s.subrange(0, k) == s);
        lemma_digits_nonneg(s);
    } else {
        lemma_digits_grow(s, k + 1);
        let t = s.subrange(0, k + 1);
        assert(t.drop_last() == s.subrange(0, k));
        assert(t.last() == s[k]);
        lemma_digits_nonneg(s.subrange(0, k));
        assert(all_digits(s.subrange(0, k))) by {
            assert forall|j: int| 0 <= j < k implies 48 <= #[trigger] s.subrange(0, k)[j] <= 57 by {
                assert(s.subrange(0, k)[j] == s[j]);
            }
        }
    }
}

proof fn lemma_digits_nonneg(s: Seq<u8>)
    requires
        all_digits(s),
    ensures
        digits_value(s) >= 0,
    decreases s.len(),
{
    if s.len() > 0 {
        assert(all_digits(s.drop_last())) by {
            assert forall|j: int| 0 <= j < s.len() - 1 implies 48 <= #[trigger] s.drop_last()[j]
                <= 57 by {
                assert(s.drop_last()[j] == s[j]);
            }
        }
        lemma_digits_nonneg(s.drop_last());
    }
}

/// Reads a decimal number: one or more digits after an optional plus sign.
/// Returns nothing for any other text and for a number that does not fit.
pub fn parse_usize(text: &[u8]) -> (r: Option<usize>)
    ensures
        r == parsed_number(text@),
{
    let start: usize = if text.len() > 0 && text[0] == 43 {
        1
    } else {
        0
    };
    let ghost d = number_digits(text@);
    if start == text.len() {
        return None;
    }
    let mut acc: usize = 0;
    let mut i: usize = start;
    while i < text.len()
        invariant
            start <= i <= text@.len(),
            d == text@.subrange(start as int, text@.len() as int),
            d == number_digits(text@),
            all_digits(d.subrange(0, i - start)),
            acc == digits_value(d.subrange(0, i - start)),
        decreases text@.len() - i,
    {
        let b = text[i];
        let ghost head = d.subrange(0, i - start);
        let ghost next = d.subrange(0, i - start + 1);
        proof {
            assert(next.drop_last() == head);
            assert(next.last() == b);
            assert(d[i - start] == b);
        }
        if b < 48 || b > 57 {
            return None;
        }
        proof {
            assert forall|j: int| 0 <= j < next.len() implies 48 <= #[trigger] next[j] <= 57 by {
                if j < head.len() {
                    assert(next[j] == head[j]);
                }
            }
        }
        let digit = (b - 48) as usize;
        let scaled = match acc.checked_mul(10) {
            Some(v) => v,
            None => {
                proof {
                    if all_digits(d) {
                        lemma_digits_grow(d, i - start + 1);
                    }
                }
                return None;
            },
        };
        acc = match scaled.checked_add(digit) {
            Some(v) => v,
            None => {
                proof {
                    if all_digits(d) {
                        lemma_digits_grow(d, i - start + 1);
                    }
                }
                return None;
            },
        };
        i = i + 1;
    }
    proof {
        assert(d.subrange(0, d.len() as int) == d);
    }
    Some(acc)
}

/// The bytes of `LAYER:`.
pub open spec fn layer_prefix() -> Seq<u8> {
    seq![76u8, 65u8, 89u8, 69u8, 82u8, 58u8]
}

/// What a comment makes of itself.
#[derive(Clone, Copy, Debug, PartialEq, Eq, Structural)]
pub enum CommentRecord {
    /// `LAYER:` and a number: the start of a layer.
    Layer(usize),
    /// `LAYER:` and anything else: the program is not valid.
    Malformed,
    /// `KEY:VALUE`. The key is the text before `key_end`, the value the text
    /// from `value_start` on. Without a colon the whole comment is the key
    /// and the value is empty.
    Typed { key_end: usize, value_start: usize },
}

/// `k` is the position of the first colon of `s`, or the length of `s` if
/// it holds none.
pub open spec fn is_key_end(s: Seq<u8>, k: int) -> bool {
    &&& 0 <= k <= s.len()
    &&& forall|j: int| 0 <= j < k ==> #[trigger] s[j] != 58
    &&& k < s.len() ==> s[k] == 58
}

/// `r` is the record that the comment text `s` makes. Every text makes
/// exactly one record.
pub open spec fn comment_record_of(s: Seq<u8>, r: CommentRecord) -> bool {
    match r {
        CommentRecord::Layer(n) => layer_prefix().is_prefix_of(s) && parsed_number(
            s.subrange(6, s.len() as int),
        ) == Some(n),
        CommentRecord::Malformed => layer_prefix().is_prefix_of(s) && parsed_number(
            s.subrange(6, s.len() as int),
        ) is None,
        CommentRecord::Typed { key_end, value_start } => {
            &&& !layer_prefix().is_prefix_of(s)
            &&& is_key_end(s, key_end as int)
            &&& value_start == (if key_end < s.len() {
                key_end + 1
            } else {
                key_end as int
            })
        },
    }
}

/// Whether two byte strings are equal.
pub fn bytes_eq(a: &[u8], b: &[u8]) -> (r: bool)
    ensures
        r == (a@ == b@),
{
    if a.len() != b.len() {
        return false;
    }
    let mut i: usize = 0;
    while i < a.len()
        invariant
            i <= a@.len(),
            a@.len() == b@.len(),
            forall|j: int| 0 <= j < i ==> a@[j] == b@[j],
        decreases a@.len() - i,
    {
        if a[i] != b[i] {
            return false;
        }
        i = i + 1;
    }
    proof {
        assert(a@ =~= b@);
    }
    true
}

/// Turns the text of a comment into a record: a layer start for `LAYER:n`,
/// else a key and a value split at the first colon.
pub fn comment_record(text: &[u8]) -> (r: CommentRecord)
    ensures
        comment_record_of(text@, r),
{
    let prefix: [u8; 6] = [76u8, 65u8, 89u8, 69u8, 82u8, 58u8];
    if text.len() >= 6 && bytes_eq(slice_subrange(text, 0, 6), &prefix) {
        proof {
            assert(prefix@ =~= layer_prefix());
            assert(layer_prefix().is_prefix_of(text@));
        }
        return match parse_usize(slice_subrange(text, 6, text.len())) {
            Some(n) => CommentRecord::Layer(n),
            None => CommentRecord::Malformed,
        };
    }
    proof {
        assert(prefix@ =~= layer_prefix());
        if layer_prefix().is_prefix_of(text@) {
            assert(text@.subrange(0, 6) =~= layer_prefix());
        }
    }
    let mut i: usize = 0;
    while i < text.len()
        invariant
            i <= text@.len(),
            !layer_prefix().is_prefix_of(text@),
            forall|j: int| 0 <= j < i ==> text@[j] != 58,
        decreases text@.len() - i,
    {
        if text[i] == 58 {
            return CommentRecord::Typed { key_end: i, value_start: i + 1 };
        }
        i = i + 1;
    }
    CommentRecord::Typed { key_end: text.len(), value_start: text.len() }
}

/// The metadata that a slicer's comments carry.
#[derive(Clone, Copy, Debug, PartialEq, Eq, Structural)]
pub enum MetaKey {
    /// `FLAVOR`
    Flavor,
    /// `TIME`
    Time,
    /// `Filament used`
    FilamentUsed,
    /// `Layer height`
    LayerHeight,
    /// `MINX`
    MinX,
    /// `MINY`
    MinY,
    /// `MINZ`
    MinZ,
    /// `MAXX`
    MaxX,
    /// `MAXY`
    MaxY,
    /// `MAXZ`
    MaxZ,
    /// `TARGET_MACHINE.NAME`
    TargetMachine,
    /// `LAYER_COUNT`
    LayerCount,
    /// Any other key; it is ignored.
    Unknown,
}

/// The bytes of the key's name.
pub open spec fn key_name(key: MetaKey) -> Seq<u8> {
    match key {
        MetaKey::Flavor => seq![70u8, 76u8, 65u8, 86u8, 79u8, 82u8],
        MetaKey::Time => seq![84u8, 73u8, 77u8, 69u8],
        MetaKey::FilamentUsed => seq![70u8, 105u8, 108u8, 97u8, 109u8, 101u8, 110u8, 116u8, 32u8, 117u8, 115u8, 101u8, 100u8],
        MetaKey::LayerHeight => seq![76u8, 97u8, 121u8, 101u8, 114u8, 32u8, 104u8, 101u8, 105u8, 103u8, 104u8, 116u8],
        MetaKey::MinX => seq![77u8, 73u8, 78u8, 88u8],
        MetaKey::MinY => seq![77u8, 73u8, 78u8, 89u8],
        MetaKey::MinZ => seq![77u8, 73u8, 78u8, 90u8],
        MetaKey::MaxX => seq![77u8, 65u8, 88u8, 88u8],
        MetaKey::MaxY => seq![77u8, 65u8, 88u8, 89u8],
        MetaKey::MaxZ => seq![77u8, 65u8, 88u8, 90u8],
        MetaKey::TargetMachine => seq![84u8, 65u8, 82u8, 71u8, 69u8, 84u8, 95u8, 77u8, 65u8, 67u8, 72u8, 73u8, 78u8, 69u8, 46u8, 78u8, 65u8, 77u8, 69u8],
        MetaKey::LayerCount => seq![76u8, 65u8, 89u8, 69u8, 82u8, 95u8, 67u8, 79u8, 85u8, 78u8, 84u8],
        MetaKey::Unknown => Seq::<u8>::empty(),
    }
}

/// The metadata key that the text `prefix` names, letter for letter.
pub open spec fn key_of(prefix: Seq<u8>) -> MetaKey {
    if prefix == key_name(MetaKey::Flavor) {
        MetaKey::Flavor
    } else if prefix == key_name(MetaKey::Time) {
        MetaKey::Time
    } else if prefix == key_name(MetaKey::FilamentUsed) {
        MetaKey::FilamentUsed
    } else if prefix == key_name(MetaKey::LayerHeight) {
        MetaKey::LayerHeight
    } else if prefix == key_name(MetaKey::MinX) {
        MetaKey::MinX
    } else if prefix == key_name(MetaKey::MinY) {
        MetaKey::MinY
    } else if prefix == key_name(MetaKey::MinZ) {
        MetaKey::MinZ
    } else if prefix == key_name(MetaKey::MaxX) {
        MetaKey::MaxX
    } else if prefix == key_name(MetaKey::MaxY) {
        MetaKey::MaxY
    } else if prefix == key_name(MetaKey::MaxZ) {
        MetaKey::MaxZ
    } else if prefix == key_name(MetaKey::TargetMachine) {
        MetaKey::TargetMachine
    } else if prefix == key_name(MetaKey::LayerCount) {
        MetaKey::LayerCount
    } else {
        MetaKey::Unknown
    }
}

/// The metadata key that the text names, letter for letter.
pub fn meta_key(prefix: &[u8]) -> (key: MetaKey)
    ensures
        key == key_of(prefix@),
{
    let name: [u8; 6] = [70u8, 76u8, 65u8, 86u8, 79u8, 82u8];
    if bytes_eq(prefix, &name) {
        return MetaKey::Flavor;
    }
    let name: [u8; 4] = [84u8, 73u8, 77u8, 69u8];
    if bytes_eq(prefix, &name) {
        return MetaKey::Time;
    }
    let name: [u8; 13] = [70u8, 105u8, 108u8, 97u8, 109u8, 101u8, 110u8, 116u8, 32u8, 117u8, 115u8, 101u8, 100u8];
    if bytes_eq(prefix, &name) {
        return MetaKey::FilamentUsed;
    }
    let name: [u8; 12] = [76u8, 97u8, 121u8, 101u8, 114u8, 32u8, 104u8, 101u8, 105u8, 103u8, 104u8, 116u8];
    if bytes_eq(prefix, &name) {
        return MetaKey::LayerHeight;
    }
    let name: [u8; 4] = [77u8, 73u8, 78u8, 88u8];
    if bytes_eq(prefix, &name) {
        return MetaKey::MinX;
    }
    let name: [u8; 4] = [77u8, 73u8, 78u8, 89u8];
    if bytes_eq(prefix, &name) {
        return MetaKey::MinY;
    }
    let name: [u8; 4] = [77u8, 73u8, 78u8, 90u8];
    if bytes_eq(prefix, &name) {
        return MetaKey::MinZ;
    }
    let name: [u8; 4] = [77u8, 65u8, 88u8, 88u8];
    if bytes_eq(prefix, &name) {
        return MetaKey::MaxX;
    }
    let name: [u8; 4] = [77u8, 65u8, 88u8, 89u8];
    if bytes_eq(prefix, &name) {
        return MetaKey::MaxY;
    }
    let name: [u8; 4] = [77u8, 65u8, 88u8, 90u8];
    if bytes_eq(prefix, &name) {
        return MetaKey::MaxZ;
    }
    let name: [u8; 19] = [84u8, 65u8, 82u8, 71u8, 69u8, 84u8, 95u8, 77u8, 65u8, 67u8, 72u8, 73u8, 78u8, 69u8, 46u8, 78u8, 65u8, 77u8, 69u8];
    if bytes_eq(prefix, &name) {
        return MetaKey::TargetMachine;
    }
    let name: [u8; 11] = [76u8, 65u8, 89u8, 69u8, 82u8, 95u8, 67u8, 79u8, 85u8, 78u8, 84u8];
    if bytes_eq(prefix, &name) {
        return MetaKey::LayerCount;
    }
    MetaKey::Unknown
}

} // verus!
