//! The Wavefront OBJ text format: vertices (`v x y z`) and faces
//! (`f a b c` or `f a b c d`, 1-based vertex indices, `/`-separated extras).

use vstd::prelude::*;

use crate::mesh::Mesh;

verus! {

/// The characters of `s`, in order.
pub fn chars_of(s: &str) -> (v: Vec<char>)
    ensures
        v@ == s@,
{
    let mut v: Vec<char> = Vec::new();
    for c in it: s.chars()
        invariant
            it.seq() == s@,
            v@ == it.seq().take(it.index() as int),
    {
        v.push(c);
    }
    v
}

/// Unicode White_Space, the characters that separate the words of a line.
pub open spec fn is_space(c: char) -> bool {
    let n = c as u32;
    ||| 0x09 <= n <= 0x0d
    ||| n == 0x20
    ||| n == 0x85
    ||| n == 0xa0
    ||| n == 0x1680
    ||| 0x2000 <= n <= 0x200a
    ||| n == 0x2028
    ||| n == 0x2029
    ||| n == 0x202f
    ||| n == 0x205f
    ||| n == 0x3000
}

/// Whether `c` is Unicode White_Space.
pub fn space(c: char) -> (r: bool)
    ensures
        r == is_space(c),
{
    let n: u32 = c as u32;
    (0x09 <= n && n <= 0x0d) || n == 0x20 || n == 0x85 || n == 0xa0 || n == 0x1680 || (0x2000 <= n
        && n <= 0x200a) || n == 0x2028 || n == 0x2029 || n == 0x202f || n == 0x205f || n == 0x3000
}

/// The number of characters before the first white space (or the end).
pub open spec fn word_len(s: Seq<char>) -> nat
    decreases s.len(),
{
    if s.len() == 0 || is_space(s[0]) {
        0
    } else {
        1 + word_len(s.drop_first())
    }
}

pub proof fn lemma_word_len_bound(s: Seq<char>)
    ensures
        word_len(s) <= s.len(),
        s.len() > 0 && !is_space(s[0]) ==> word_len(s) >= 1,
    decreases s.len(),
{
    if s.len() > 0 && !is_space(s[0]) {
        lemma_word_len_bound(s.drop_first());
    }
}

/// The words of `s`: its maximal runs of characters that are not white space, in order.
pub open spec fn words(s: Seq<char>) -> Seq<Seq<char>>
    decreases s.len(),
{
    if s.len() == 0 {
        seq![]
    } else if is_space(s[0]) {
        words(s.drop_first())
    } else {
        proof {
            lemma_word_len_bound(s);
        }
        seq![s.take(word_len(s) as int)] + words(s.skip(word_len(s) as int))
    }
}

proof fn lemma_word_len_space_append(a: Seq<char>, c: char, b: Seq<char>)
    requires
        is_space(c),
    ensures
        word_len(a + seq![c] + b) == word_len(a),
    decreases a.len(),
{
    if a.len() > 0 {
        assert((a + seq![c] + b).drop_first() =~= a.drop_first() + seq![c] + b);
        lemma_word_len_space_append(a.drop_first(), c, b);
    } else {
        assert(a + seq![c] + b =~= seq![c] + b);
    }
}

/// Words are separated by white space: the words of `a`, a white-space
/// character and `b` are the words of `a` followed by those of `b`.
pub proof fn lemma_words_append(a: Seq<char>, c: char, b: Seq<char>)
    requires
        is_space(c),
    ensures
        words(a + seq![c] + b) == words(a) + words(b),
    decreases a.len(),
{
    let s = a + seq![c] + b;
    if a.len() == 0 {
        assert(s =~= seq![c] + b);
        assert(s.drop_first() =~= b);
        assert(words(a) =~= Seq::<Seq<char>>::empty());
        assert(words(s) =~= words(a) + words(b));
    } else if is_space(a[0]) {
        assert(s.drop_first() =~= a.drop_first() + seq![c] + b);
        lemma_words_append(a.drop_first(), c, b);
        assert(words(s) =~= words(a) + words(b));
    } else {
        lemma_word_len_space_append(a, c, b);
        lemma_word_len_bound(a);
        let n = word_len(a) as int;
        assert(s.take(n) =~= a.take(n));
        assert(s.skip(n) =~= a.skip(n) + seq![c] + b);
        lemma_words_append(a.skip(n), c, b);
        assert(words(s) =~= words(a) + words(b));
    }
}

/// The words of `text[start..end]`.
pub fn line_words(text: &Vec<char>, start: usize, end: usize) -> (ws: Vec<Vec<char>>)
    requires
        start <= end <= text@.len(),
    ensures
        ws@.len() == words(text@.subrange(start as int, end as int)).len(),
        forall|k: int|
            0 <= k < ws@.len() ==> #[trigger] ws@[k]@ == words(
                text@.subrange(start as int, end as int),
            )[k],
{
    let ghost line = text@.subrange(start as int, end as int);
    let mut ws: Vec<Vec<char>> = Vec::new();
    let ghost mut done: Seq<Seq<char>> = seq![];
    let mut i: usize = start;
    while i < end
        invariant
            start <= i <= end <= text@.len(),
            line == text@.subrange(start as int, end as int),
            words(line) == done + words(text@.subrange(i as int, end as int)),
            ws@.len() == done.len(),
            forall|k: int| 0 <= k < ws@.len() ==> #[trigger] ws@[k]@ == done[k],
        decreases end - i,
    {
        let ghost rest = text@.subrange(i as int, end as int);
        if space(text[i]) {
            assert(rest.drop_first() =~= text@.subrange(i + 1, end as int));
            i = i + 1;
        } else {
            let j0: usize = i;
            let mut w: Vec<char> = Vec::new();
            while i < end && !space(text[i])
                invariant
                    j0 <= i <= end <= text@.len(),
                    rest == text@.subrange(j0 as int, end as int),
                    w@ == text@.subrange(j0 as int, i as int),
                    word_len(rest) == (i - j0) + word_len(text@.subrange(i as int, end as int)),
                decreases end - i,
            {
                assert(text@.subrange(i as int, end as int).drop_first() =~= text@.subrange(i + 1, end as int));
                w.push(text[i]);
                i = i + 1;
                assert(w@ =~= text@.subrange(j0 as int, i as int));
            }
            assert(word_len(text@.subrange(i as int, end as int)) == 0);
            assert(rest.take(word_len(rest) as int) =~= w@);
            assert(rest.skip(word_len(rest) as int) =~= text@.subrange(i as int, end as int));
            proof {
                done = done.push(w@);
            }
            ws.push(w);
            assert(words(line) == done + words(text@.subrange(i as int, end as int)));
        }
    }
    assert(done =~= words(line));
    ws
}

/// Why a face line was refused.
#[derive(Clone, Copy, Debug, PartialEq, Eq, Structural)]
pub enum ObjError {
    /// A vertex reference whose leading field is not a decimal number that fits a `usize`.
    InvalidIndex,
    /// A vertex reference of 0: OBJ counts vertices from 1.
    ZeroIndex,
}

/// The number of characters before the first `/` (or the end).
pub open spec fn field_len(s: Seq<char>) -> nat
    decreases s.len(),
{
    if s.len() == 0 || s[0] == '/' {
        0
    } else {
        1 + field_len(s.drop_first())
    }
}

pub open spec fn is_digit(c: char) -> bool {
    '0' <= c <= '9'
}

/// The value of a string of decimal digits.
pub open spec fn digits_value(s: Seq<char>) -> nat
    decreases s.len(),
{
    if s.len() == 0 {
        0
    } else {
        digits_value(s.drop_last()) * 10 + (s.last() as nat - '0' as nat) as nat
    }
}

/// Every character of `d` is a decimal digit.
pub open spec fn all_digits(d: Seq<char>) -> bool {
    forall|i: int| 0 <= i < d.len() ==> is_digit(#[trigger] d[i])
}

/// `s` without one leading `+`.
pub open spec fn unsigned_part(s: Seq<char>) -> Seq<char> {
    if s.len() > 0 && s[0] == '+' {
        s.drop_first()
    } else {
        s
    }
}

/// `usize`'s `FromStr`: an optional `+`, then one or more decimal digits whose
/// value fits a `usize`.
pub open spec fn parse_usize(s: Seq<char>) -> Option<usize> {
    let d = unsigned_part(s);
    if d.len() > 0 && all_digits(d) && digits_value(d) <= usize::MAX {
        Some(digits_value(d) as usize)
    } else {
        None
    }
}

/// The 0-based vertex a face's vertex reference names: its field before any
/// `/` is a 1-based index.
pub open spec fn face_index(token: Seq<char>) -> Result<usize, ObjError> {
    match parse_usize(token.take(field_len(token) as int)) {
        None => Err(ObjError::InvalidIndex),
        Some(n) => if n == 0 {
            Err(ObjError::ZeroIndex)
        } else {
            Ok((n - 1) as usize)
        },
    }
}

proof fn lemma_field_len_bound(s: Seq<char>)
    ensures
        field_len(s) <= s.len(),
    decreases s.len(),
{
    if s.len() > 0 && s[0] != '/' {
        lemma_field_len_bound(s.drop_first());
    }
}

/// A longer string of digits has at least the value of its prefix.
proof fn lemma_digits_value_grows(d: Seq<char>, i: int)
    requires
        0 <= i <= d.len(),
        all_digits(d),
    ensures
        digits_value(d.take(i)) <= digits_value(d),
    decreases d.len() - i,
{
    if i < d.len() {
        lemma_digits_value_grows(d, i + 1);
        assert(d.take(i + 1).drop_last() =~= d.take(i));
    } else {
        assert(d.take(i) =~= d);
    }
}

/// The vertex a face's vertex reference names.
pub fn parse_face_index(token: &Vec<char>) -> (r: Result<usize, ObjError>)
    ensures
        r == face_index(token@),
{
    let ghost t = token@;
    let mut end: usize = 0;
    assert(t.skip(0) =~= t);
    while end < token.len() && token[end] != '/'
        invariant
            end <= token@.len(),
            t == token@,
            field_len(t) == end + field_len(t.skip(end as int)),
        decreases token@.len() - end,
    {
        assert(t.skip(end as int).drop_first() =~= t.skip(end + 1));
        end = end + 1;
    }
    let ghost field = t.take(end as int);
    assert(field_len(t) == end);
    let mut start: usize = 0;
    if end > 0 && token[0] == '+' {
        start = 1;
    }
    let ghost d = field.skip(start as int);
    assert(d =~= unsigned_part(field));
    if start == end {
        return Err(ObjError::InvalidIndex);
    }
    let mut value: usize = 0;
    let mut i: usize = start;
    while i < end
        invariant
            start <= i <= end <= token@.len(),
            t == token@,
            field == t.take(end as int),
            d == field.skip(start as int),
            d == unsigned_part(field),
            field_len(t) == end,
            d.len() == end - start,
            forall|k: int| 0 <= k < i - start ==> is_digit(#[trigger] d[k]),
            value == digits_value(d.take(i - start)),
        decreases end - i,
    {
        let c: char = token[i];
        assert(d[i - start] == c);
        if !('0' <= c && c <= '9') {
            assert(!is_digit(d[i - start]));
            assert(!all_digits(d));
            return Err(ObjError::InvalidIndex);
        }
        let digit: u32 = c as u32 - '0' as u32;
        assert(d.take(i + 1 - start).drop_last() =~= d.take(i - start));
        assert(d.take(i + 1 - start).last() == c);
        assert(digits_value(d.take(i + 1 - start)) == value * 10 + digit);
        if value > (usize::MAX - digit as usize) / 10 {
            proof {
                if all_digits(d) {
                    lemma_digits_value_grows(d, i + 1 - start);
                }
            }
            return Err(ObjError::InvalidIndex);
        }
        value = value * 10 + digit as usize;
        i = i + 1;
    }
    assert(d.take(end - start) =~= d);
    if value == 0 {
        return Err(ObjError::ZeroIndex);
    }
    Ok(value - 1)
}

/// `String::push` of std, which appends one character to the string.
#[verifier::external_body]
fn push_char(s: &mut String, c: char)
    ensures
        final(s)@ == old(s)@.push(c),
{
    s.push(c);
}

/// The string made of the characters of `v`.
fn string_of(v: &Vec<char>) -> (s: String)
    ensures
        s@ == v@,
{
    let mut s: String = String::new();
    let mut i: usize = 0;
    while i < v.len()
        invariant
            i <= v@.len(),
            s@ == v@.take(i as int),
        decreases v@.len() - i,
    {
        push_char(&mut s, v[i]);
        i = i + 1;
        assert(s@ =~= v@.take(i as int));
    }
    assert(v@.take(i as int) =~= v@);
    s
}

/// A vertex line's three coordinates, as written.
pub struct ObjVertex {
    pub x: String,
    pub y: String,
    pub z: String,
}

/// What an OBJ text holds: its vertices' coordinate words, and its triangles
/// as 0-based vertex indices.
pub struct ObjModel {
    pub vertices: Seq<(Seq<char>, Seq<char>, Seq<char>)>,
    pub triangles: Seq<(usize, usize, usize)>,
}

/// The model of a mesh read from OBJ text.
pub open spec fn mesh_model(m: Mesh<ObjVertex>) -> ObjModel {
    ObjModel {
        vertices: m.vertices@.map_values(|v: ObjVertex| (v.x@, v.y@, v.z@)),
        triangles: m.triangles@,
    }
}

/// The triangles of a face line `f a b c [d]` with at least four words: `a b c`,
/// and with exactly five words also `a c d`, the quad's other half. The first
/// reference that names no vertex, in line order, is the error.
pub open spec fn face_triangles(ws: Seq<Seq<char>>) -> Result<Seq<(usize, usize, usize)>, ObjError> {
    match face_index(ws[1]) {
        Err(e) => Err(e),
        Ok(i0) => match face_index(ws[2]) {
            Err(e) => Err(e),
            Ok(i1) => match face_index(ws[3]) {
                Err(e) => Err(e),
                Ok(i2) => if ws.len() == 5 {
                    match face_index(ws[4]) {
                        Err(e) => Err(e),
                        Ok(i3) => Ok(seq![(i0, i1, i2), (i0, i2, i3)]),
                    }
                } else {
                    Ok(seq![(i0, i1, i2)])
                },
            },
        },
    }
}

/// The model after one more line, given as its words: `v` with three
/// coordinates adds a vertex, `f` with three or more references adds its
/// triangles, and every other line (blank, short, or of another kind) is skipped.
pub open spec fn apply_line(m: ObjModel, ws: Seq<Seq<char>>) -> Result<ObjModel, ObjError> {
    if ws.len() >= 4 && ws[0] == seq!['v'] {
        Ok(ObjModel { vertices: m.vertices.push((ws[1], ws[2], ws[3])), triangles: m.triangles })
    } else if ws.len() >= 4 && ws[0] == seq!['f'] {
        match face_triangles(ws) {
            Err(e) => Err(e),
            Ok(ts) => Ok(ObjModel { vertices: m.vertices, triangles: m.triangles + ts }),
        }
    } else {
        Ok(m)
    }
}

/// The number of characters before the first line feed (or the end).
pub open spec fn line_len(s: Seq<char>) -> nat
    decreases s.len(),
{
    if s.len() == 0 || s[0] == '\n' {
        0
    } else {
        1 + line_len(s.drop_first())
    }
}

pub proof fn lemma_line_len_bound(s: Seq<char>)
    ensures
        line_len(s) <= s.len(),
    decreases s.len(),
{
    if s.len() > 0 && s[0] != '\n' {
        lemma_line_len_bound(s.drop_first());
    }
}

/// The model after the lines of `s`, starting from `acc`. Lines end at a line
/// feed; a carriage return before it is white space, so it ends no word.
pub open spec fn parse_from(s: Seq<char>, acc: Result<ObjModel, ObjError>) -> Result<ObjModel, ObjError>
    decreases s.len(),
{
    let n = line_len(s);
    let next = match acc {
        Ok(m) => apply_line(m, words(s.take(n as int))),
        Err(e) => Err(e),
    };
    if n >= s.len() {
        next
    } else {
        proof {
            lemma_line_len_bound(s);
        }
        parse_from(s.skip(n + 1 as int), next)
    }
}

/// The model that an OBJ text describes, or the error of its first bad face line.
pub open spec fn obj_model(text: Seq<char>) -> Result<ObjModel, ObjError> {
    parse_from(text, Ok(ObjModel { vertices: seq![], triangles: seq![] }))
}

proof fn lemma_parse_from_err(s: Seq<char>, e: ObjError)
    ensures
        parse_from(s, Err(e)) == Err::<ObjModel, ObjError>(e),
    decreases s.len(),
{
    lemma_line_len_bound(s);
    if line_len(s) < s.len() {
        lemma_parse_from_err(s.skip(line_len(s) + 1 as int), e);
    }
}

proof fn lemma_line_len_append(a: Seq<char>, b: Seq<char>)
    ensures
        line_len(a) < a.len() ==> line_len(a + b) == line_len(a),
        line_len(a) == a.len() ==> line_len(a + b) == a.len() + line_len(b),
    decreases a.len(),
{
    lemma_line_len_bound(a);
    if a.len() > 0 {
        assert((a + b).drop_first() =~= a.drop_first() + b);
        lemma_line_len_append(a.drop_first(), b);
    } else {
        assert(a + b =~= b);
    }
}

/// A text is read line by line: reading `a`, a line feed and then `b` is
/// reading `b` after reading `a`.
pub proof fn lemma_parse_lines_compose(a: Seq<char>, b: Seq<char>, acc: Result<ObjModel, ObjError>)
    ensures
        parse_from(a + seq!['\n'] + b, acc) == parse_from(b, parse_from(a, acc)),
    decreases a.len(),
{
    let s = a + seq!['\n'] + b;
    let n = line_len(a);
    lemma_line_len_bound(a);
    lemma_line_len_append(a, seq!['\n'] + b);
    assert(s =~= a + (seq!['\n'] + b));
    if n < a.len() {
        assert(s.take(n as int) =~= a.take(n as int));
        assert(s.skip(n + 1 as int) =~= a.skip(n + 1 as int) + seq!['\n'] + b);
        let next = match acc {
            Ok(m) => apply_line(m, words(a.take(n as int))),
            Err(e) => Err(e),
        };
        lemma_parse_lines_compose(a.skip(n + 1 as int), b, next);
    } else {
        assert(line_len(seq!['\n'] + b) == 0);
        assert(s.take(n as int) =~= a.take(n as int));
        assert(s.skip(n + 1 as int) =~= b);
    }
}

/// Reading a text whose first part reads without error goes on from that
/// part's model: `obj_model(a + "\n" + b)` is `b` read after `obj_model(a)`.
pub proof fn lemma_obj_model_compose(a: Seq<char>, b: Seq<char>)
    ensures
        obj_model(a + seq!['\n'] + b) == parse_from(b, obj_model(a)),
{
    lemma_parse_lines_compose(a, b, Ok(ObjModel { vertices: seq![], triangles: seq![] }));
}

/// A single decimal digit reads as its value.
pub proof fn lemma_parse_usize_one_digit(c: char)
    requires
        '0' <= c <= '9',
    ensures
        parse_usize(seq![c]) == Some((c as u32 - '0' as u32) as usize),
{
    let d = seq![c];
    assert(d.drop_last() =~= Seq::<char>::empty());
    assert(d[0] != '+');
    assert(unsigned_part(d) == d);
    assert(all_digits(d));
    assert(d.last() == c);
    assert(digits_value(Seq::<char>::empty()) == 0);
    assert(digits_value(d) == digits_value(d.drop_last()) * 10 + (c as nat - '0' as nat) as nat);
    assert(digits_value(d) == (c as nat - '0' as nat) as nat);
    assert(c as u32 - '0' as u32 == c as nat - '0' as nat);
}

/// Appending a digit to a number multiplies it by ten and adds the digit,
/// as long as the result fits a `usize`.
pub proof fn lemma_parse_usize_push_digit(s: Seq<char>, c: char)
    requires
        parse_usize(s) is Some,
        '0' <= c <= '9',
        (parse_usize(s)->Some_0 as int) * 10 + (c as u32 - '0' as u32) <= usize::MAX,
    ensures
        parse_usize(s.push(c)) == Some(
            ((parse_usize(s)->Some_0 as int) * 10 + (c as u32 - '0' as u32)) as usize,
        ),
{
    let d = unsigned_part(s);
    assert(unsigned_part(s.push(c)) =~= d.push(c));
    assert(d.push(c).drop_last() =~= d);
    assert(all_digits(d.push(c))) by {
        assert forall|i: int| 0 <= i < d.push(c).len() implies is_digit(#[trigger] d.push(c)[i]) by {
            if i < d.len() {
                assert(d.push(c)[i] == d[i]);
            }
        }
    }
}

/// A number overflowing `usize` does not read.
pub proof fn lemma_parse_usize_overflow(s: Seq<char>, c: char)
    requires
        parse_usize(s) is Some,
        '0' <= c <= '9',
        (parse_usize(s)->Some_0 as int) * 10 + (c as u32 - '0' as u32) > usize::MAX,
    ensures
        parse_usize(s.push(c)) is None,
{
    let d = unsigned_part(s);
    assert(unsigned_part(s.push(c)) =~= d.push(c));
    assert(d.push(c).drop_last() =~= d);
}

/// A character other than a digit, after an optional leading `+`, makes the
/// number unreadable.
pub proof fn lemma_parse_usize_non_digit(s: Seq<char>, i: int)
    requires
        0 <= i < s.len(),
        !is_digit(s[i]),
        !(i == 0 && s[0] == '+'),
    ensures
        parse_usize(s) is None,
{
    let d = unsigned_part(s);
    if s.len() > 0 && s[0] == '+' {
        assert(d[i - 1] == s[i]);
    } else {
        assert(d[i] == s[i]);
    }
}

/// One leading `+` does not change a number; a second one is refused.
pub proof fn lemma_parse_usize_plus(s: Seq<char>)
    requires
        s.len() > 0,
        s[0] != '+',
    ensures
        parse_usize(seq!['+'] + s) == parse_usize(s),
        parse_usize(seq!['+', '+'] + s) is None,
{
    assert((seq!['+'] + s).drop_first() =~= s);
    assert((seq!['+', '+'] + s).drop_first() =~= seq!['+'] + s);
    assert(!is_digit((seq!['+'] + s)[0]));
}

/// A vertex reference is read up to its first `/`: what follows does not matter.
pub proof fn lemma_face_index_slash(t: Seq<char>, r: Seq<char>)
    requires
        forall|i: int| 0 <= i < t.len() ==> t[i] != '/',
    ensures
        face_index(t + seq!['/'] + r) == face_index(t),
    decreases t.len(),
{
    lemma_field_len_prefix(t, r);
    assert((t + seq!['/'] + r).take(t.len() as int) =~= t);
    assert(t.take(t.len() as int) =~= t);
    lemma_field_len_prefix(t, Seq::<char>::empty());
}

proof fn lemma_field_len_prefix(t: Seq<char>, r: Seq<char>)
    requires
        forall|i: int| 0 <= i < t.len() ==> t[i] != '/',
    ensures
        field_len(t + seq!['/'] + r) == t.len(),
        field_len(t) == t.len(),
    decreases t.len(),
{
    if t.len() > 0 {
        assert((t + seq!['/'] + r).drop_first() =~= t.drop_first() + seq!['/'] + r);
        assert forall|i: int| 0 <= i < t.drop_first().len() implies t.drop_first()[i] != '/' by {
            assert(t.drop_first()[i] == t[i + 1]);
        }
        lemma_field_len_prefix(t.drop_first(), r);
    } else {
        assert(t + seq!['/'] + r =~= seq!['/'] + r);
    }
}

/// `l` holds no line feed: it is one line.
pub open spec fn single_line(l: Seq<char>) -> bool {
    forall|i: int| 0 <= i < l.len() ==> l[i] != '\n'
}

proof fn lemma_line_len_single(l: Seq<char>)
    requires
        single_line(l),
    ensures
        line_len(l) == l.len(),
    decreases l.len(),
{
    if l.len() > 0 {
        assert(single_line(l.drop_first())) by {
            assert forall|i: int| 0 <= i < l.drop_first().len() implies l.drop_first()[i] != '\n' by {
                assert(l.drop_first()[i] == l[i + 1]);
            }
        }
        lemma_line_len_single(l.drop_first());
    }
}

/// The model after the text `a` and then one more line `l`.
proof fn lemma_append_line(a: Seq<char>, l: Seq<char>)
    requires
        single_line(l),
    ensures
        obj_model(a + seq!['\n'] + l) == match obj_model(a) {
            Ok(m) => apply_line(m, words(l)),
            Err(e) => Err(e),
        },
{
    lemma_obj_model_compose(a, l);
    lemma_line_len_single(l);
    assert(l.take(l.len() as int) =~= l);
}

/// A vertex line adds exactly one vertex: after any text, a line whose first
/// word is `v` and that has at least four words adds the vertex made of its
/// second, third and fourth words, whatever follows them, and nothing else.
pub proof fn lemma_vertex_line(a: Seq<char>, l: Seq<char>)
    requires
        single_line(l),
        words(l).len() >= 4,
        words(l)[0] == seq!['v'],
    ensures
        obj_model(a + seq!['\n'] + l) == match obj_model(a) {
            Ok(m) => Ok(
                ObjModel {
                    vertices: m.vertices.push((words(l)[1], words(l)[2], words(l)[3])),
                    triangles: m.triangles,
                },
            ),
            Err(e) => Err(e),
        },
{
    lemma_append_line(a, l);
}

/// A triangle face line `f a b c` whose references all name vertices adds
/// exactly the triangle of those 0-based indices, whatever words follow the
/// third reference (unless there is exactly one more, a quad), and no vertex.
pub proof fn lemma_triangle_line(a: Seq<char>, l: Seq<char>)
    requires
        single_line(l),
        words(l).len() >= 4,
        words(l).len() != 5,
        words(l)[0] == seq!['f'],
        face_index(words(l)[1]) is Ok,
        face_index(words(l)[2]) is Ok,
        face_index(words(l)[3]) is Ok,
    ensures
        obj_model(a + seq!['\n'] + l) == match obj_model(a) {
            Ok(m) => Ok(
                ObjModel {
                    vertices: m.vertices,
                    triangles: m.triangles.push(
                        (
                            face_index(words(l)[1])->Ok_0,
                            face_index(words(l)[2])->Ok_0,
                            face_index(words(l)[3])->Ok_0,
                        ),
                    ),
                },
            ),
            Err(e) => Err(e),
        },
{
    lemma_append_line(a, l);
    assert(words(l)[0][0] == 'f');
    assert(words(l)[0] != seq!['v']);
    if let Ok(m) = obj_model(a) {
        let ws = words(l);
        let t = (face_index(ws[1])->Ok_0, face_index(ws[2])->Ok_0, face_index(ws[3])->Ok_0);
        assert(face_index(ws[1]) == Ok::<usize, ObjError>(t.0));
        assert(face_index(ws[2]) == Ok::<usize, ObjError>(t.1));
        assert(face_index(ws[3]) == Ok::<usize, ObjError>(t.2));
        assert(face_triangles(ws) == Ok::<Seq<(usize, usize, usize)>, ObjError>(seq![t]));
        assert(m.triangles + seq![t] =~= m.triangles.push(t));
    }
}

/// A quad face line `f a b c d` whose references all name vertices adds
/// exactly the two triangles `a b c` and `a c d`, which share the diagonal
/// `a c` and keep the quad's winding, and no vertex.
pub proof fn lemma_quad_line(a: Seq<char>, l: Seq<char>)
    requires
        single_line(l),
        words(l).len() == 5,
        words(l)[0] == seq!['f'],
        face_index(words(l)[1]) is Ok,
        face_index(words(l)[2]) is Ok,
        face_index(words(l)[3]) is Ok,
        face_index(words(l)[4]) is Ok,
    ensures
        ({
            let (i0, i1, i2, i3) = (
                face_index(words(l)[1])->Ok_0,
                face_index(words(l)[2])->Ok_0,
                face_index(words(l)[3])->Ok_0,
                face_index(words(l)[4])->Ok_0,
            );
            obj_model(a + seq!['\n'] + l) == match obj_model(a) {
                Ok(m) => Ok(
                    ObjModel {
                        vertices: m.vertices,
                        triangles: m.triangles.push((i0, i1, i2)).push((i0, i2, i3)),
                    },
                ),
                Err(e) => Err(e),
            }
        }),
{
    lemma_append_line(a, l);
    assert(words(l)[0][0] == 'f');
    assert(words(l)[0] != seq!['v']);
    if let Ok(m) = obj_model(a) {
        let (i0, i1, i2, i3) = (
            face_index(words(l)[1])->Ok_0,
            face_index(words(l)[2])->Ok_0,
            face_index(words(l)[3])->Ok_0,
            face_index(words(l)[4])->Ok_0,
        );
        let ws = words(l);
        assert(face_index(ws[1]) == Ok::<usize, ObjError>(i0));
        assert(face_index(ws[2]) == Ok::<usize, ObjError>(i1));
        assert(face_index(ws[3]) == Ok::<usize, ObjError>(i2));
        assert(face_index(ws[4]) == Ok::<usize, ObjError>(i3));
        assert(face_triangles(ws) == Ok::<Seq<(usize, usize, usize)>, ObjError>(
            seq![(i0, i1, i2), (i0, i2, i3)],
        ));
        assert(m.triangles + seq![(i0, i1, i2), (i0, i2, i3)] =~= m.triangles.push((i0, i1, i2)).push(
            (i0, i2, i3),
        ));
    }
}

/// A face line whose first failing reference (in line order, among the ones
/// read: three, or four for a quad) fails with `e` makes the text fail with `e`,
/// unless the text before it already failed.
pub proof fn lemma_bad_face_line(a: Seq<char>, l: Seq<char>, j: int, e: ObjError)
    requires
        single_line(l),
        words(l).len() >= 4,
        words(l)[0] == seq!['f'],
        1 <= j <= 3 || (j == 4 && words(l).len() == 5),
        forall|i: int| 1 <= i < j ==> face_index(#[trigger] words(l)[i]) is Ok,
        face_index(words(l)[j]) == Err::<usize, ObjError>(e),
    ensures
        obj_model(a + seq!['\n'] + l) == match obj_model(a) {
            Ok(m) => Err::<ObjModel, ObjError>(e),
            Err(e0) => Err(e0),
        },
{
    lemma_append_line(a, l);
    assert(words(l)[0][0] == 'f');
    assert(words(l)[0] != seq!['v']);
    assert(1 < j ==> face_index(words(l)[1]) is Ok);
    assert(2 < j ==> face_index(words(l)[2]) is Ok);
    assert(3 < j ==> face_index(words(l)[3]) is Ok);
}

/// Every other line changes nothing: a blank line, a line of fewer than four
/// words, or one whose first word is neither `v` nor `f`.
pub proof fn lemma_other_line(a: Seq<char>, l: Seq<char>)
    requires
        single_line(l),
        words(l).len() < 4 || (words(l)[0] != seq!['v'] && words(l)[0] != seq!['f']),
    ensures
        obj_model(a + seq!['\n'] + l) == obj_model(a),
{
    lemma_append_line(a, l);
}

/// Whether the word `w` is the one-letter keyword `k`.
fn is_keyword(w: &Vec<char>, k: char) -> (r: bool)
    ensures
        r == (w@ == seq![k]),
{
    let r: bool = w.len() == 1 && w[0] == k;
    assert(r ==> w@ =~= seq![k]);
    r
}

impl Mesh<ObjVertex> {
    /// Reads a mesh from Wavefront OBJ text. Vertex lines `v x y z` keep their
    /// coordinates as written; face lines `f a b c` add a triangle, and
    /// `f a b c d` adds the two triangles `a b c` and `a c d`. A vertex
    /// reference is 1-based and may carry `/`-separated texture and normal
    /// indices, which are ignored. Other lines, and vertex or face lines with
    /// fewer than three numbers, are skipped. The first face reference that is
    /// not a positive decimal `usize` is the error.
    pub fn from_obj_text(text: &str) -> (r: Result<Mesh<ObjVertex>, ObjError>)
        ensures
            match r {
                Ok(m) => obj_model(text@) == Ok::<ObjModel, ObjError>(mesh_model(m)),
                Err(e) => obj_model(text@) == Err::<ObjModel, ObjError>(e),
            },
    {
        let chars: Vec<char> = chars_of(text);
        let mut vertices: Vec<ObjVertex> = Vec::new();
        let mut triangles: Vec<(usize, usize, usize)> = Vec::new();
        let mut start: usize = 0;
        assert(chars@.skip(0) =~= chars@);
        assert(mesh_model(Mesh { vertices, triangles }).vertices =~= seq![]);
        assert(mesh_model(Mesh { vertices, triangles }).triangles =~= seq![]);
        loop
            invariant
                start <= chars@.len(),
                chars@ == text@,
                obj_model(text@) == parse_from(
                    chars@.skip(start as int),
                    Ok(mesh_model(Mesh { vertices, triangles })),
                ),
            decreases chars@.len() - start,
        {
            let ghost rest = chars@.skip(start as int);
            let ghost before = mesh_model(Mesh { vertices, triangles });
            let mut end: usize = start;
            assert(chars@.skip(start as int) =~= rest);
            while end < chars.len() && chars[end] != '\n'
                invariant
                    start <= end <= chars@.len(),
                    rest == chars@.skip(start as int),
                    line_len(rest) == (end - start) + line_len(chars@.skip(end as int)),
                decreases chars@.len() - end,
            {
                assert(chars@.skip(end as int).drop_first() =~= chars@.skip(end + 1));
                end = end + 1;
            }
            assert(line_len(chars@.skip(end as int)) == 0);
            assert(rest.take(line_len(rest) as int) =~= chars@.subrange(start as int, end as int));
            let ws: Vec<Vec<char>> = line_words(&chars, start, end);
            let ghost wsv = words(chars@.subrange(start as int, end as int));
            let ghost next = apply_line(before, wsv);
            if ws.len() >= 4 && is_keyword(&ws[0], 'v') {
                let x: String = string_of(&ws[1]);
                let y: String = string_of(&ws[2]);
                let z: String = string_of(&ws[3]);
                let ghost old_vertices = vertices@;
                vertices.push(ObjVertex { x, y, z });
                assert(mesh_model(Mesh { vertices, triangles }).vertices =~= before.vertices.push(
                    (wsv[1], wsv[2], wsv[3]),
                ));
                assert(next == Ok::<ObjModel, ObjError>(mesh_model(Mesh { vertices, triangles })));
            } else if ws.len() >= 4 && is_keyword(&ws[0], 'f') {
                let i0: usize = match parse_face_index(&ws[1]) {
                    Ok(i) => i,
                    Err(e) => {
                        proof {
                            lemma_parse_from_err(rest.skip(line_len(rest) + 1 as int), e);
                        }
                        return Err(e);
                    },
                };
                let i1: usize = match parse_face_index(&ws[2]) {
                    Ok(i) => i,
                    Err(e) => {
                        proof {
                            lemma_parse_from_err(rest.skip(line_len(rest) + 1 as int), e);
                        }
                        return Err(e);
                    },
                };
                let i2: usize = match parse_face_index(&ws[3]) {
                    Ok(i) => i,
                    Err(e) => {
                        proof {
                            lemma_parse_from_err(rest.skip(line_len(rest) + 1 as int), e);
                        }
                        return Err(e);
                    },
                };
                if ws.len() == 5 {
                    let i3: usize = match parse_face_index(&ws[4]) {
                        Ok(i) => i,
                        Err(e) => {
                            proof {
                                lemma_parse_from_err(rest.skip(line_len(rest) + 1 as int), e);
                            }
                            return Err(e);
                        },
                    };
                    triangles.push((i0, i1, i2));
                    triangles.push((i0, i2, i3));
                    assert(mesh_model(Mesh { vertices, triangles }).triangles =~= before.triangles + seq![
                        (i0, i1, i2),
                        (i0, i2, i3),
                    ]);
                } else {
                    triangles.push((i0, i1, i2));
                    assert(mesh_model(Mesh { vertices, triangles }).triangles =~= before.triangles + seq![
                        (i0, i1, i2),
                    ]);
                }
                assert(mesh_model(Mesh { vertices, triangles }).vertices == before.vertices);
                assert(next == Ok::<ObjModel, ObjError>(mesh_model(Mesh { vertices, triangles })));
            } else {
                assert(next == Ok::<ObjModel, ObjError>(mesh_model(Mesh { vertices, triangles })));
            }
            if end == chars.len() {
                return Ok(Mesh { vertices, triangles });
            }
            assert(rest.skip(line_len(rest) + 1 as int) =~= chars@.skip(end + 1));
            start = end + 1;
        }
    }
}

} // verus!
