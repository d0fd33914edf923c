use vstd::prelude::*;

verus! {

/// The characters of `content`, in order.
pub fn to_chars(content: &str) -> (chars: Vec<char>)
    ensures
        chars@ == content@,
{
    broadcast use vstd::string::axiom_spec_iter;
    let mut chars: Vec<char> = Vec::new();
    for c in it: content.chars()
        invariant
            it.seq() == content@,
            chars@ == it.seq().take(it.index() as int),
    {
        chars.push(c);
    }
    chars
}

/// Whether `c` has the Unicode `White_Space` property, as
/// `char::is_whitespace` documents it.
pub open spec fn spec_is_whitespace(c: char) -> bool {
    let u = c as u32;
    ||| 0x09 <= u <= 0x0d
    ||| u == 0x20
    ||| u == 0x85
    ||| u == 0xa0
    ||| u == 0x1680
    ||| 0x2000 <= u <= 0x200a
    ||| u == 0x2028
    ||| u == 0x2029
    ||| u == 0x202f
    ||| u == 0x205f
    ||| u == 0x3000
}

/// Whether `c` is white space (see `spec_is_whitespace`).
pub fn is_whitespace(c: char) -> (b: bool)
    ensures
        b == spec_is_whitespace(c),
{
    let u = c as u32;
    (0x09 <= u && u <= 0x0d) || u == 0x20 || u == 0x85 || u == 0xa0 || u == 0x1680 || (0x2000 <= u
        && u <= 0x200a) || u == 0x2028 || u == 0x2029 || u == 0x202f || u == 0x205f || u == 0x3000
}

/// The words of the lines finished so far, the words of the current line
/// finished so far, and the current word.
pub type ScanState = (Seq<Seq<Seq<char>>>, Seq<Seq<char>>, Seq<char>);

/// The current word as a list of finished words: none if it is empty.
pub open spec fn flush(word: Seq<char>) -> Seq<Seq<char>> {
    if word.len() == 0 {
        seq![]
    } else {
        seq![word]
    }
}

/// Reading one more character: a newline ends the word and the line, other
/// white space ends the word, any other character extends the word.
pub open spec fn scan_step(st: ScanState, c: char) -> ScanState {
    let (lines, words, word) = st;
    if c == '\n' {
        (lines.push(words + flush(word)), seq![], seq![])
    } else if spec_is_whitespace(c) {
        (lines, words + flush(word), seq![])
    } else {
        (lines, words, word.push(c))
    }
}

/// The state after reading all of `s`.
pub open spec fn scan(s: Seq<char>) -> ScanState
    decreases s.len(),
{
    if s.len() == 0 {
        (seq![], seq![], seq![])
    } else {
        scan_step(scan(s.drop_last()), s.last())
    }
}

/// The words of each line of `s`: lines end at `'\n'` (the part after the
/// last newline is a line too, maybe without words), words are the maximal
/// runs of characters that are not white space.
pub open spec fn spec_line_words(s: Seq<char>) -> Seq<Seq<Seq<char>>> {
    let (lines, words, word) = scan(s);
    lines.push(words + flush(word))
}

/// Splits `text` into lines and each line into words (see
/// `spec_line_words`).
pub fn line_words(text: &[char]) -> (r: Vec<Vec<Vec<char>>>)
    ensures
        r.deep_view() == spec_line_words(text@),
{
    let n = text.len();
    let mut lines: Vec<Vec<Vec<char>>> = Vec::new();
    let mut words: Vec<Vec<char>> = Vec::new();
    let mut word: Vec<char> = Vec::new();
    let mut i: usize = 0;
    while i < n
        invariant
            n == text@.len(),
            i <= n,
            (lines.deep_view(), words.deep_view(), word@) == scan(text@.take(i as int)),
        decreases n - i,
    {
        let c = text[i];
        let ghost st = (lines.deep_view(), words.deep_view(), word@);
        proof {
            assert(text@.take(i + 1).drop_last() =~= text@.take(i as int));
            assert(text@.take(i + 1).last() == c);
        }
        if c == '\n' {
            if word.len() > 0 {
                let ghost wv = words.deep_view();
                proof {
                    assert(word.deep_view() =~= word@);
                }
                words.push(word);
                proof {
                    assert(words.deep_view() =~= wv + flush(st.2));
                }
            } else {
                proof {
                    assert(words.deep_view() =~= st.1 + flush(st.2));
                }
            }
            let ghost lv = lines.deep_view();
            let ghost wv2 = words.deep_view();
            lines.push(words);
            proof {
                assert(lines.deep_view() =~= lv.push(wv2));
            }
            words = Vec::new();
            word = Vec::new();
            proof {
                assert(words.deep_view() =~= Seq::<Seq<char>>::empty());
            }
        } else if is_whitespace(c) {
            if word.len() > 0 {
                let ghost wv = words.deep_view();
                proof {
                    assert(word.deep_view() =~= word@);
                }
                words.push(word);
                proof {
                    assert(words.deep_view() =~= wv + flush(st.2));
                }
            } else {
                proof {
                    assert(words.deep_view() =~= st.1 + flush(st.2));
                }
            }
            word = Vec::new();
        } else {
            word.push(c);
        }
        i = i + 1;
    }
    proof {
        assert(text@.take(n as int) =~= text@);
    }
    let ghost st = (lines.deep_view(), words.deep_view(), word@);
    if word.len() > 0 {
        let ghost wv = words.deep_view();
        proof {
            assert(word.deep_view() =~= word@);
        }
        words.push(word);
        proof {
            assert(words.deep_view() =~= wv + flush(st.2));
        }
    } else {
        proof {
            assert(words.deep_view() =~= st.1 + flush(st.2));
        }
    }
    let ghost lv = lines.deep_view();
    let ghost wv2 = words.deep_view();
    lines.push(words);
    proof {
        assert(lines.deep_view() =~= lv.push(wv2));
    }
    lines
}

/// Whether `c` is an ASCII decimal digit.
pub open spec fn is_digit(c: char) -> bool {
    0x30 <= c as u32 <= 0x39
}

/// The value of a decimal digit.
pub open spec fn digit_value(c: char) -> int {
    c as u32 - 0x30
}

/// The value of a string of decimal digits.
pub open spec fn digits_value(d: Seq<char>) -> int
    decreases d.len(),
{
    if d.len() == 0 {
        0
    } else {
        digits_value(d.drop_last()) * 10 + digit_value(d.last())
    }
}

/// `w` without its leading sign, if it has one.
pub open spec fn unsigned_part(w: Seq<char>) -> Seq<char> {
    if w.len() > 0 && (w[0] == '-' || w[0] == '+') {
        w.drop_first()
    } else {
        w
    }
}

/// Whether every character of `d` is an ASCII digit.
pub open spec fn all_digits(d: Seq<char>) -> bool {
    forall|i: int| 0 <= i < d.len() ==> is_digit(#[trigger] d[i])
}

/// The number that `i32`'s `from_str` reads from `w`: an optional `+` or
/// `-`, then one or more ASCII digits, with a value that fits in `i32`;
/// `None` for anything else.
pub open spec fn spec_parse_i32(w: Seq<char>) -> Option<int> {
    if w.len() == 0 {
        None
    } else {
        let neg = w[0] == '-';
        let d = unsigned_part(w);
        if d.len() == 0 || !all_digits(d) {
            None
        } else {
            let v = if neg {
                -digits_value(d)
            } else {
                digits_value(d)
            };
            if i32::MIN <= v <= i32::MAX {
                Some(v)
            } else {
                None
            }
        }
    }
}

proof fn lemma_digits_value_nonneg(d: Seq<char>)
    requires
        forall|i: int| 0 <= i < d.len() ==> is_digit(#[trigger] d[i]),
    ensures
        digits_value(d) >= 0,
    decreases d.len(),
{
    if d.len() > 0 {
        assert forall|i: int| 0 <= i < d.drop_last().len() implies is_digit(
            #[trigger] d.drop_last()[i],
        ) by {
            assert(d.drop_last()[i] == d[i]);
        }
        lemma_digits_value_nonneg(d.drop_last());
        assert(is_digit(d[d.len() - 1]));
    }
}

/// Reads an `i32` the way `str::parse::<i32>` does (see `spec_parse_i32`).
pub fn parse_i32(w: &[char]) -> (r: Option<i32>)
    ensures
        r is None <==> spec_parse_i32(w@) is None,
        r matches Some(k) ==> spec_parse_i32(w@) == Some(k as int),
{
    let n = w.len();
    if n == 0 {
        return None;
    }
    let neg = w[0] == '-';
    let start: usize = if w[0] == '-' || w[0] == '+' {
        1
    } else {
        0
    };
    let ghost d = unsigned_part(w@);
    proof {
        assert(d =~= w@.subrange(start as int, n as int));
    }
    if start == n {
        return None;
    }
    // The value of the digits read so far, capped at 2^32.
    let cap: u64 = 0x1_0000_0000;
    let mut acc: u64 = 0;
    let mut i: usize = start;
    while i < n
        invariant
            n == w@.len(),
            start <= i <= n,
            d == w@.subrange(start as int, n as int),
            d == unsigned_part(w@),
            forall|j: int| start <= j < i ==> is_digit(#[trigger] w@[j]),
            acc == if digits_value(w@.subrange(start as int, i as int)) < cap {
                digits_value(w@.subrange(start as int, i as int))
            } else {
                cap as int
            },
            cap == 0x1_0000_0000,
        decreases n - i,
    {
        let c = w[i];
        let u = c as u32;
        if u < 0x30 || u > 0x39 {
            proof {
                assert(d[i - start] == c);
                assert(!is_digit(d[i - start]));
                assert(d[i - start] == c);
                assert(!all_digits(unsigned_part(w@)));
            }
            return None;
        }
        let ghost pre = w@.subrange(start as int, i as int);
        let ghost post = w@.subrange(start as int, i + 1);
        proof {
            assert(post.drop_last() =~= pre);
            assert(post.last() == c);
            assert forall|j: int| 0 <= j < pre.len() implies is_digit(#[trigger] pre[j]) by {
                assert(pre[j] == w@[start + j]);
            }
            lemma_digits_value_nonneg(pre);
        }
        let dv = (u - 0x30) as u64;
        if acc >= cap {
            acc = cap;
        } else {
            let next = acc * 10 + dv;
            acc = if next >= cap {
                cap
            } else {
                next
            };
        }
        i = i + 1;
    }
    proof {
        assert(w@.subrange(start as int, n as int) == d);
        assert forall|j: int| 0 <= j < d.len() implies is_digit(#[trigger] d[j]) by {
            assert(d[j] == w@[start + j]);
        }
        lemma_digits_value_nonneg(d);
    }
    if neg {
        if acc <= 0x8000_0000 {
            let v: i64 = -(acc as i64);
            Some(v as i32)
        } else {
            None
        }
    } else {
        if acc <= 0x7fff_ffff {
            Some(acc as i32)
        } else {
            None
        }
    }
}

/// Whether the word `w` is the single character `c`.
pub open spec fn is_tag(w: Seq<char>, c: char) -> bool {
    w.len() == 1 && w[0] == c
}

/// Whether the word `w` reads as an `i32` that indexes one of the `count`
/// vertices read so far.
pub open spec fn face_index_ok(w: Seq<char>, count: int) -> bool {
    match spec_parse_i32(w) {
        Some(k) => 0 <= k < count,
        None => false,
    }
}

/// Reading one more line of OBJ text, given the coordinate words of the
/// vertices read so far (`None` once the text was found malformed): a
/// line without words and a line of any other kind change nothing; a `v`
/// line adds a vertex with its next three words and must have them; an `f`
/// line must have three more words, each an `i32` index of a vertex read
/// before it.
pub open spec fn obj_step(acc: Option<Seq<Seq<Seq<char>>>>, line: Seq<Seq<char>>) -> Option<Seq<Seq<Seq<char>>>> {
    match acc {
        None => None,
        Some(vs) => if line.len() == 0 {
            Some(vs)
        } else if is_tag(line[0], 'v') {
            if line.len() >= 4 {
                Some(vs.push(seq![line[1], line[2], line[3]]))
            } else {
                None
            }
        } else if is_tag(line[0], 'f') {
            if line.len() >= 4 && face_index_ok(line[1], vs.len() as int) && face_index_ok(
                line[2],
                vs.len() as int,
            ) && face_index_ok(line[3], vs.len() as int) {
                Some(vs)
            } else {
                None
            }
        } else {
            Some(vs)
        },
    }
}

/// The coordinate words of the vertices of the lines `lines`, in order, or
/// `None` if they are malformed (see `obj_step`).
pub open spec fn spec_obj_vertices(lines: Seq<Seq<Seq<char>>>) -> Option<Seq<Seq<Seq<char>>>>
    decreases lines.len(),
{
    if lines.len() == 0 {
        Some(seq![])
    } else {
        obj_step(spec_obj_vertices(lines.drop_last()), lines.last())
    }
}

/// The three coordinate words of one `v` line.
#[derive(Debug)]
pub struct VertexWords {
    pub x: Vec<char>,
    pub y: Vec<char>,
    pub z: Vec<char>,
}

impl VertexWords {
    pub open spec fn words(self) -> Seq<Seq<char>> {
        seq![self.x@, self.y@, self.z@]
    }
}

/// The coordinate words of a list of vertices.
pub open spec fn vertex_words(v: Seq<VertexWords>) -> Seq<Seq<Seq<char>>> {
    Seq::new(v.len(), |i: int| v[i].words())
}

proof fn lemma_malformed_prefix(lines: Seq<Seq<Seq<char>>>, j: int)
    requires
        0 <= j <= lines.len(),
        spec_obj_vertices(lines.take(j)) is None,
    ensures
        spec_obj_vertices(lines) is None,
    decreases lines.len() - j,
{
    if j < lines.len() {
        assert(lines.take(j + 1).drop_last() =~= lines.take(j));
        lemma_malformed_prefix(lines, j + 1);
    } else {
        assert(lines.take(j) =~= lines);
    }
}

fn copy_word(w: &Vec<char>) -> (r: Vec<char>)
    ensures
        r@ == w@,
{
    let mut r: Vec<char> = Vec::new();
    let n = w.len();
    let mut i: usize = 0;
    while i < n
        invariant
            n == w@.len(),
            i <= n,
            r@ == w@.take(i as int),
        decreases n - i,
    {
        r.push(w[i]);
        proof {
            assert(w@.take(i + 1) =~= w@.take(i as int).push(w@[i as int]));
        }
        i = i + 1;
    }
    proof {
        assert(w@.take(n as int) =~= w@);
    }
    r
}

fn is_tag_exec(w: &Vec<char>, c: char) -> (b: bool)
    ensures
        b == is_tag(w@, c),
{
    w.len() == 1 && w[0] == c
}

proof fn lemma_char_vec_deep_view(v: Vec<char>)
    ensures
        v.deep_view() == v@,
{
    assert(v.deep_view() =~= v@);
}

/// The coordinate words of the vertices of the OBJ text `content` (see
/// `spec_obj_vertices` over `spec_line_words`), or `None` where the text
/// is malformed.
pub fn parse_obj_vertices(content: &str) -> (r: Option<Vec<VertexWords>>)
    ensures
        r is None <==> spec_obj_vertices(spec_line_words(content@)) is None,
        r matches Some(vs) ==> spec_obj_vertices(spec_line_words(content@)) == Some(
            vertex_words(vs@),
        ),
{
    let chars = to_chars(content);
    let lines = line_words(chars.as_slice());
    let ghost all = lines.deep_view();
    let n = lines.len();
    let mut out: Vec<VertexWords> = Vec::new();
    let mut i: usize = 0;
    while i < n
        invariant
            n == lines@.len(),
            all == lines.deep_view(),
            all == spec_line_words(content@),
            i <= n,
            spec_obj_vertices(all.take(i as int)) == Some(vertex_words(out@)),
        decreases n - i,
    {
        let line = &lines[i];
        let ghost lv = all[i as int];
        proof {
            assert(all.take(i + 1).drop_last() =~= all.take(i as int));
            assert(all.take(i + 1).last() == lv);
            assert(lv == line.deep_view());
            assert(lv.len() == line@.len());
            assert forall|k: int| 0 <= k < line@.len() implies #[trigger] lv[k] == line@[k]@ by {
                lemma_char_vec_deep_view(line@[k]);
            }
        }
        if line.len() == 0 {
        } else if is_tag_exec(&line[0], 'v') {
            if line.len() >= 4 {
                let vw = VertexWords {
                    x: copy_word(&line[1]),
                    y: copy_word(&line[2]),
                    z: copy_word(&line[3]),
                };
                let ghost before = out@;
                out.push(vw);
                proof {
                    assert(vertex_words(out@) =~= vertex_words(before).push(seq![lv[1], lv[2], lv[3]]));
                }
            } else {
                proof {
                    lemma_malformed_prefix(all, i + 1);
                }
                return None;
            }
        } else if is_tag_exec(&line[0], 'f') {
            if line.len() < 4 {
                proof {
                    lemma_malformed_prefix(all, i + 1);
                }
                return None;
            }
            let count = out.len();
            let mut k: usize = 1;
            #[verifier::loop_isolation(false)]
            while k < 4
                invariant
                    1 <= k <= 4,
                    line@.len() >= 4,
                    count == out@.len(),
                    lv.len() == line@.len(),
                    forall|m: int| 0 <= m < line@.len() ==> #[trigger] lv[m] == line@[m]@,
                    forall|m: int| 1 <= m < k ==> face_index_ok(#[trigger] lv[m], count as int),
                decreases 4 - k,
            {
                let parsed = parse_i32(line[k].as_slice());
                let fits = match parsed {
                    Some(idx) => idx >= 0 && (idx as usize) < count,
                    None => false,
                };
                if !fits {
                    proof {
                        assert(!face_index_ok(lv[k as int], count as int));
                        assert(obj_step(Some(vertex_words(out@)), lv) is None);
                        lemma_malformed_prefix(all, i + 1);
                    }
                    return None;
                }
                k = k + 1;
            }
        } else {
        }
        i = i + 1;
    }
    proof {
        assert(all.take(n as int) =~= all);
    }
    Some(out)
}

/// Whether `w` is a proper word: not empty and free of white space.
pub open spec fn is_word(w: Seq<char>) -> bool {
    w.len() > 0 && forall|k: int| 0 <= k < w.len() ==> !spec_is_whitespace(#[trigger] w[k])
}

/// Whether every entry of `words` is a proper word.
pub open spec fn all_words(words: Seq<Seq<char>>) -> bool {
    forall|j: int| 0 <= j < words.len() ==> is_word(#[trigger] words[j])
}

proof fn lemma_scan_words(s: Seq<char>)
    ensures
        forall|l: int| 0 <= l < scan(s).0.len() ==> all_words(#[trigger] scan(s).0[l]),
        all_words(scan(s).1),
        forall|k: int| 0 <= k < scan(s).2.len() ==> !spec_is_whitespace(#[trigger] scan(s).2[k]),
    decreases s.len(),
{
    if s.len() > 0 {
        lemma_scan_words(s.drop_last());
        let (lines, words, word) = scan(s.drop_last());
        let c = s.last();
        let flushed = words + flush(word);
        assert(all_words(flushed)) by {
            assert forall|j: int| 0 <= j < flushed.len() implies is_word(#[trigger] flushed[j]) by {
                if j < words.len() {
                    assert(flushed[j] == words[j]);
                } else {
                    assert(flushed[j] == word);
                }
            }
        }
        if c == '\n' {
            assert forall|l: int| 0 <= l < scan(s).0.len() implies all_words(#[trigger] scan(s).0[l]) by {
                if l < lines.len() {
                    assert(scan(s).0[l] == lines[l]);
                } else {
                    assert(scan(s).0[l] == flushed);
                }
            }
            assert(all_words(scan(s).1)) by {
                assert(scan(s).1 =~= Seq::<Seq<char>>::empty());
            }
        } else if spec_is_whitespace(c) {
        } else {
            assert forall|k: int| 0 <= k < scan(s).2.len() implies !spec_is_whitespace(
                #[trigger] scan(s).2[k],
            ) by {
                if k < word.len() {
                    assert(scan(s).2[k] == word[k]);
                } else {
                    assert(scan(s).2[k] == c);
                }
            }
        }
    }
}

/// Every word that the line splitting yields is a proper word: not empty,
/// and holding no white space.
pub proof fn lemma_line_words_are_words(s: Seq<char>)
    ensures
        forall|l: int| 0 <= l < spec_line_words(s).len() ==> all_words(#[trigger] spec_line_words(s)[l]),
{
    lemma_scan_words(s);
    let (lines, words, word) = scan(s);
    let flushed = words + flush(word);
    assert(all_words(flushed)) by {
        assert forall|j: int| 0 <= j < flushed.len() implies is_word(#[trigger] flushed[j]) by {
            if j < words.len() {
                assert(flushed[j] == words[j]);
            } else {
                assert(flushed[j] == word);
            }
        }
    }
    assert forall|l: int| 0 <= l < spec_line_words(s).len() implies all_words(
        #[trigger] spec_line_words(s)[l],
    ) by {
        if l < lines.len() {
            assert(spec_line_words(s)[l] == lines[l]);
        } else {
            assert(spec_line_words(s)[l] == flushed);
        }
    }
}

/// How many of `lines` are `v` lines.
pub open spec fn count_vertex_lines(lines: Seq<Seq<Seq<char>>>) -> nat
    decreases lines.len(),
{
    if lines.len() == 0 {
        0
    } else {
        count_vertex_lines(lines.drop_last()) + if lines.last().len() > 0 && is_tag(
            lines.last()[0],
            'v',
        ) {
            1nat
        } else {
            0nat
        }
    }
}

/// Well-formed OBJ text yields exactly one vertex per `v` line.
pub proof fn lemma_one_vertex_per_v_line(lines: Seq<Seq<Seq<char>>>)
    requires
        spec_obj_vertices(lines) is Some,
    ensures
        spec_obj_vertices(lines)->0.len() == count_vertex_lines(lines),
    decreases lines.len(),
{
    if lines.len() > 0 {
        lemma_one_vertex_per_v_line(lines.drop_last());
    }
}

/// Whether `a` is empty or ends with a newline, so that text appended to it
/// starts a new line.
pub open spec fn ends_line(a: Seq<char>) -> bool {
    a.len() == 0 || a.last() == '\n'
}

/// Whether a line is blank or starts with a word other than `v` or `f`.
pub open spec fn is_other_line(line: Seq<Seq<char>>) -> bool {
    line.len() == 0 || (line[0] != seq!['v'] && line[0] != seq!['f'])
}

/// Whether a line starts with the word `f`.
pub open spec fn is_face_line(line: Seq<Seq<char>>) -> bool {
    line.len() > 0 && line[0] == seq!['f']
}

/// The vertices of two readings one after the other; `None` if either is.
pub open spec fn join_vertices(
    a: Option<Seq<Seq<Seq<char>>>>,
    b: Option<Seq<Seq<Seq<char>>>>,
) -> Option<Seq<Seq<Seq<char>>>> {
    match (a, b) {
        (Some(x), Some(y)) => Some(x + y),
        _ => None,
    }
}

proof fn lemma_scan_after_line_end(a: Seq<char>)
    requires
        ends_line(a),
    ensures
        scan(a).1 == Seq::<Seq<char>>::empty(),
        scan(a).2 == Seq::<char>::empty(),
{
}

proof fn lemma_scan_concat(a: Seq<char>, b: Seq<char>)
    requires
        ends_line(a),
    ensures
        scan(a + b) == (scan(a).0 + scan(b).0, scan(b).1, scan(b).2),
    decreases b.len(),
{
    lemma_scan_after_line_end(a);
    if b.len() == 0 {
        assert(a + b =~= a);
        assert(scan(a).0 + scan(b).0 =~= scan(a).0);
    } else {
        lemma_scan_concat(a, b.drop_last());
        assert((a + b).drop_last() =~= a + b.drop_last());
        assert((a + b).last() == b.last());
        let (l0, w0, c0) = scan(b.drop_last());
        let c = b.last();
        if c == '\n' {
            assert((scan(a).0 + l0).push(w0 + flush(c0)) =~= scan(a).0 + l0.push(w0 + flush(c0)));
        }
    }
}

/// The line words of two texts one after the other, the first ending a
/// line: the lines of the first (whose last, after its final newline, has
/// no words), then those of the second.
pub proof fn lemma_line_words_concat(a: Seq<char>, b: Seq<char>)
    requires
        ends_line(a),
    ensures
        spec_line_words(a + b) == spec_line_words(a).drop_last() + spec_line_words(b),
        spec_line_words(a).len() > 0,
        spec_line_words(a).last() == Seq::<Seq<char>>::empty(),
{
    lemma_scan_concat(a, b);
    lemma_scan_after_line_end(a);
    let (l0, w0, c0) = scan(b);
    assert(spec_line_words(a).drop_last() =~= scan(a).0);
    assert((scan(a).0 + l0).push(w0 + flush(c0)) =~= scan(a).0 + l0.push(w0 + flush(c0)));
    assert(flush(Seq::<char>::empty()) =~= Seq::<Seq<char>>::empty());
    assert(Seq::<Seq<char>>::empty() + Seq::<Seq<char>>::empty() =~= Seq::<Seq<char>>::empty());
}

proof fn lemma_tag_is_word(w: Seq<char>, c: char)
    ensures
        is_tag(w, c) <==> w == seq![c],
{
    if is_tag(w, c) {
        assert(w =~= seq![c]);
    }
}

proof fn lemma_other_line_step(acc: Option<Seq<Seq<Seq<char>>>>, line: Seq<Seq<char>>)
    requires
        is_other_line(line),
    ensures
        obj_step(acc, line) == acc,
{
    if line.len() > 0 {
        lemma_tag_is_word(line[0], 'v');
        lemma_tag_is_word(line[0], 'f');
    }
}

proof fn lemma_obj_other_suffix(l1: Seq<Seq<Seq<char>>>, e: Seq<Seq<Seq<char>>>)
    requires
        forall|j: int| 0 <= j < e.len() ==> is_other_line(#[trigger] e[j]),
    ensures
        spec_obj_vertices(l1 + e) == spec_obj_vertices(l1),
    decreases e.len(),
{
    if e.len() == 0 {
        assert(l1 + e =~= l1);
    } else {
        lemma_obj_other_suffix(l1, e.drop_last());
        assert((l1 + e).drop_last() =~= l1 + e.drop_last());
        assert((l1 + e).last() == e[e.len() - 1]);
        lemma_other_line_step(spec_obj_vertices(l1 + e.drop_last()), e.last());
    }
}

/// Lines that are blank or start with a word other than `v` or `f`, put
/// anywhere among the lines, change nothing: the same vertices come out,
/// and the same texts are malformed.
pub proof fn lemma_obj_ignores_other_lines(
    l1: Seq<Seq<Seq<char>>>,
    e: Seq<Seq<Seq<char>>>,
    l2: Seq<Seq<Seq<char>>>,
)
    requires
        forall|j: int| 0 <= j < e.len() ==> is_other_line(#[trigger] e[j]),
    ensures
        spec_obj_vertices(l1 + e + l2) == spec_obj_vertices(l1 + l2),
    decreases l2.len(),
{
    if l2.len() == 0 {
        assert(l1 + e + l2 =~= l1 + e);
        assert(l1 + l2 =~= l1);
        lemma_obj_other_suffix(l1, e);
    } else {
        lemma_obj_ignores_other_lines(l1, e, l2.drop_last());
        assert((l1 + e + l2).drop_last() =~= l1 + e + l2.drop_last());
        assert((l1 + l2).drop_last() =~= l1 + l2.drop_last());
        assert((l1 + e + l2).last() == l2.last());
        assert((l1 + l2).last() == l2.last());
    }
}

/// Reading lines without `f` lines after other lines gives the vertices of
/// the first lines, then those of the second; malformed if either is.
pub proof fn lemma_obj_concat(l1: Seq<Seq<Seq<char>>>, l2: Seq<Seq<Seq<char>>>)
    requires
        forall|j: int| 0 <= j < l2.len() ==> !is_face_line(#[trigger] l2[j]),
    ensures
        spec_obj_vertices(l1 + l2) == join_vertices(spec_obj_vertices(l1), spec_obj_vertices(l2)),
    decreases l2.len(),
{
    if l2.len() == 0 {
        assert(l1 + l2 =~= l1);
        if let Some(x) = spec_obj_vertices(l1) {
            assert(x + Seq::<Seq<Seq<char>>>::empty() =~= x);
        }
    } else {
        let l2p = l2.drop_last();
        assert forall|j: int| 0 <= j < l2p.len() implies !is_face_line(#[trigger] l2p[j]) by {
            assert(l2p[j] == l2[j]);
        }
        lemma_obj_concat(l1, l2p);
        assert((l1 + l2).drop_last() =~= l1 + l2p);
        assert((l1 + l2).last() == l2.last());
        assert(!is_face_line(l2[l2.len() - 1]));
        let r = l2.last();
        if r.len() > 0 {
            lemma_tag_is_word(r[0], 'f');
        }
        match (spec_obj_vertices(l1), spec_obj_vertices(l2p)) {
            (Some(x), Some(y)) => {
                if r.len() > 0 && is_tag(r[0], 'v') && r.len() >= 4 {
                    let t = seq![r[1], r[2], r[3]];
                    assert((x + y).push(t) =~= x + y.push(t));
                }
            },
            _ => {},
        }
    }
}

/// Inserting text whose lines are all blank or start with a word other than
/// `v` or `f` at a line boundary of OBJ text changes nothing: the same
/// vertices come out, and the same texts are malformed.
pub proof fn lemma_text_ignores_other_lines(a: Seq<char>, x: Seq<char>, b: Seq<char>)
    requires
        ends_line(a),
        ends_line(x),
        forall|j: int|
            0 <= j < spec_line_words(x).len() ==> is_other_line(#[trigger] spec_line_words(x)[j]),
    ensures
        spec_obj_vertices(spec_line_words(a + x + b)) == spec_obj_vertices(spec_line_words(a + b)),
{
    assert(a + x + b =~= a + (x + b));
    lemma_line_words_concat(a, x + b);
    lemma_line_words_concat(x, b);
    lemma_line_words_concat(a, b);
    let la = spec_line_words(a).drop_last();
    let lx = spec_line_words(x).drop_last();
    let lb = spec_line_words(b);
    assert(la + (lx + lb) =~= la + lx + lb);
    assert forall|j: int| 0 <= j < lx.len() implies is_other_line(#[trigger] lx[j]) by {
        assert(lx[j] == spec_line_words(x)[j]);
    }
    lemma_obj_ignores_other_lines(la, lx, lb);
}

/// The vertices of OBJ text `a + b`, where `a` ends a line and `b` has no
/// `f` line, are those of `a` followed by those of `b`; the text is
/// malformed exactly when `a` or `b` is.
pub proof fn lemma_text_concat(a: Seq<char>, b: Seq<char>)
    requires
        ends_line(a),
        forall|j: int| 0 <= j < spec_line_words(b).len() ==> !is_face_line(#[trigger] spec_line_words(b)[j]),
    ensures
        spec_obj_vertices(spec_line_words(a + b)) == join_vertices(
            spec_obj_vertices(spec_line_words(a)),
            spec_obj_vertices(spec_line_words(b)),
        ),
{
    lemma_line_words_concat(a, b);
    let la = spec_line_words(a);
    lemma_obj_concat(la.drop_last(), spec_line_words(b));
    lemma_other_line_step(spec_obj_vertices(la.drop_last()), la.last());
}

/// The state after reading `b`, starting from the state `st`.
pub open spec fn scan_from(st: ScanState, b: Seq<char>) -> ScanState
    decreases b.len(),
{
    if b.len() == 0 {
        st
    } else {
        scan_step(scan_from(st, b.drop_last()), b.last())
    }
}

proof fn lemma_scan_split(a: Seq<char>, b: Seq<char>)
    ensures
        scan(a + b) == scan_from(scan(a), b),
    decreases b.len(),
{
    if b.len() == 0 {
        assert(a + b =~= a);
    } else {
        lemma_scan_split(a, b.drop_last());
        assert((a + b).drop_last() =~= a + b.drop_last());
        assert((a + b).last() == b.last());
    }
}

/// The state `st` read after finished lines `p` and the finished words `w`
/// of the current line.
pub open spec fn shifted(p: Seq<Seq<Seq<char>>>, w: Seq<Seq<char>>, st: ScanState) -> ScanState {
    if st.0.len() == 0 {
        (p, w + st.1, st.2)
    } else {
        (p.push(w + st.0[0]) + st.0.drop_first(), st.1, st.2)
    }
}

proof fn lemma_scan_from_shifted(p: Seq<Seq<Seq<char>>>, w: Seq<Seq<char>>, b: Seq<char>)
    ensures
        scan_from((p, w, Seq::<char>::empty()), b) == shifted(p, w, scan(b)),
    decreases b.len(),
{
    if b.len() == 0 {
        assert(w + Seq::<Seq<char>>::empty() =~= w);
    } else {
        lemma_scan_from_shifted(p, w, b.drop_last());
        let (b0, b1, b2) = scan(b.drop_last());
        let c = b.last();
        if c == '\n' {
            let x = b1 + flush(b2);
            if b0.len() == 0 {
                assert(w + (b0.push(x))[0] =~= w + b1 + flush(b2));
                assert(p.push(w + (b0.push(x))[0]) + b0.push(x).drop_first() =~= p.push(
                    w + b1 + flush(b2),
                ));
            } else {
                assert(b0.push(x)[0] == b0[0]);
                assert(b0.push(x).drop_first() =~= b0.drop_first().push(x));
                assert((p.push(w + b0[0]) + b0.drop_first()).push(x) =~= p.push(w + b0[0])
                    + b0.drop_first().push(x));
            }
        } else if spec_is_whitespace(c) {
            if b0.len() == 0 {
                assert(w + b1 + flush(b2) =~= w + (b1 + flush(b2)));
            }
        }
    }
}

proof fn lemma_scan_from_one(st: ScanState, c: char)
    ensures
        scan_from(st, seq![c]) == scan_step(st, c),
{
    assert(seq![c].drop_last() =~= Seq::<char>::empty());
    assert(seq![c].last() == c);
    assert(scan_from(st, Seq::<char>::empty()) == st);
}

/// Joins two lists of lines where the text between them is white space
/// but no newline: the last line of the first and the first line of the
/// second become one line.
pub open spec fn join_lines(x: Seq<Seq<Seq<char>>>, y: Seq<Seq<Seq<char>>>) -> Seq<Seq<Seq<char>>> {
    x.drop_last().push(x.last() + y[0]) + y.drop_first()
}

/// Text without characters has one line, without words.
pub proof fn lemma_line_words_of_nothing()
    ensures
        spec_line_words(Seq::<char>::empty()) == seq![Seq::<Seq<char>>::empty()],
{
    assert(Seq::<Seq<char>>::empty() + flush(Seq::<char>::empty()) =~= Seq::<Seq<char>>::empty());
}

proof fn lemma_scan_of_word(w: Seq<char>)
    requires
        forall|k: int| 0 <= k < w.len() ==> !spec_is_whitespace(#[trigger] w[k]),
    ensures
        scan(w) == (Seq::<Seq<Seq<char>>>::empty(), Seq::<Seq<char>>::empty(), w),
    decreases w.len(),
{
    if w.len() > 0 {
        let v = w.drop_last();
        assert forall|k: int| 0 <= k < v.len() implies !spec_is_whitespace(#[trigger] v[k]) by {
            assert(v[k] == w[k]);
        }
        lemma_scan_of_word(v);
        assert(!spec_is_whitespace(w[w.len() - 1]));
        assert(v.push(w.last()) =~= w);
    }
}

/// Text with no white space at all (a newline is white space) is one line
/// holding one word: the whole text. So words are split only at white
/// space, and no character that is not white space is left out.
pub proof fn lemma_line_words_of_word(w: Seq<char>)
    requires
        w.len() > 0,
        forall|k: int| 0 <= k < w.len() ==> !spec_is_whitespace(#[trigger] w[k]),
    ensures
        spec_line_words(w) == seq![seq![w]],
{
    lemma_scan_of_word(w);
    assert(Seq::<Seq<char>>::empty() + flush(w) =~= seq![w]);
    assert(Seq::<Seq<Seq<char>>>::empty().push(seq![w]) =~= seq![seq![w]]);
}

/// A newline between two texts ends a line: the lines of `a + "\n" + b`
/// are the lines of `a`, then the lines of `b`.
pub proof fn lemma_line_words_at_newline(a: Seq<char>, b: Seq<char>)
    ensures
        spec_line_words(a + seq!['\n'] + b) == spec_line_words(a) + spec_line_words(b),
{
    let an = a + seq!['\n'];
    lemma_scan_split(a, seq!['\n']);
    lemma_scan_split(an, b);
    lemma_scan_from_one(scan(a), '\n');
    let la = spec_line_words(a);
    assert(scan(an) == (la, Seq::<Seq<char>>::empty(), Seq::<char>::empty()));
    lemma_scan_from_shifted(la, Seq::<Seq<char>>::empty(), b);
    let (b0, b1, b2) = scan(b);
    let x = b1 + flush(b2);
    if b0.len() == 0 {
        assert(Seq::<Seq<char>>::empty() + b1 =~= b1);
        assert(la.push(b1 + flush(b2)) =~= la + spec_line_words(b));
    } else {
        assert(Seq::<Seq<char>>::empty() + b0[0] =~= b0[0]);
        assert((la.push(b0[0]) + b0.drop_first()).push(x) =~= la + b0.push(x));
    }
}

/// White space other than a newline between two texts ends a word but not
/// the line: the lines of `a + c + b` are those of `a` and of `b`, with the
/// last line of `a` and the first of `b` joined into one.
pub proof fn lemma_line_words_at_space(a: Seq<char>, c: char, b: Seq<char>)
    requires
        spec_is_whitespace(c),
        c != '\n',
    ensures
        spec_line_words(a + seq![c] + b) == join_lines(spec_line_words(a), spec_line_words(b)),
{
    let ac = a + seq![c];
    lemma_scan_split(a, seq![c]);
    lemma_scan_split(ac, b);
    lemma_scan_from_one(scan(a), c);
    let (a0, a1, a2) = scan(a);
    let w = a1 + flush(a2);
    assert(scan(ac) == (a0, w, Seq::<char>::empty()));
    lemma_scan_from_shifted(a0, w, b);
    let la = spec_line_words(a);
    assert(la.drop_last() =~= a0);
    assert(la.last() == w);
    let (b0, b1, b2) = scan(b);
    let x = b1 + flush(b2);
    let lb = spec_line_words(b);
    if b0.len() == 0 {
        assert(lb[0] == x);
        assert(lb.drop_first() =~= Seq::<Seq<Seq<char>>>::empty());
        assert(w + b1 + flush(b2) =~= w + x);
        assert(a0.push(w + b1 + flush(b2)) =~= a0.push(w + x) + lb.drop_first());
    } else {
        assert(lb[0] == b0[0]);
        assert(lb.drop_first() =~= b0.drop_first().push(x));
        assert((a0.push(w + b0[0]) + b0.drop_first()).push(x) =~= a0.push(w + b0[0]) + b0.drop_first().push(x));
    }
}

/// The ASCII white space is tab, line feed, vertical tab, form feed,
/// carriage return and space; every other ASCII character, `/` among them,
/// is part of words.
pub proof fn lemma_ascii_whitespace(c: char)
    requires
        (c as u32) < 0x80,
    ensures
        spec_is_whitespace(c) <==> (c == ' ' || c == '\t' || c == '\n' || c == '\r' || (c as u32) == 0x0b
            || (c as u32) == 0x0c),
{
}

/// Every ASCII digit `'0'` to `'9'`, alone, reads as its value.
pub proof fn lemma_parse_single_digit(c: char)
    requires
        0x30 <= c as u32 <= 0x39,
    ensures
        spec_parse_i32(seq![c]) == Some(c as u32 - 0x30),
{
    let w = seq![c];
    assert(unsigned_part(w) == w);
    assert(w.drop_last() =~= Seq::<char>::empty());
    assert(digits_value(Seq::<char>::empty()) == 0);
    assert(digits_value(w) == c as u32 - 0x30);
}

/// Appending an ASCII digit `d` to a word that starts with a digit and
/// reads as `v` gives the word that reads as `10 * v + d`, if that fits in
/// `i32`, and is rejected otherwise.
pub proof fn lemma_parse_append_digit(w: Seq<char>, v: int, d: char)
    requires
        w.len() > 0,
        0x30 <= w[0] as u32 <= 0x39,
        spec_parse_i32(w) == Some(v),
        0x30 <= d as u32 <= 0x39,
    ensures
        spec_parse_i32(w.push(d)) == if 10 * v + (d as u32 - 0x30) <= i32::MAX {
            Some(10 * v + (d as u32 - 0x30))
        } else {
            None::<int>
        },
{
    let wd = w.push(d);
    assert(unsigned_part(w) == w);
    assert(wd[0] == w[0]);
    assert(unsigned_part(wd) == wd);
    assert(wd.drop_last() =~= w);
    assert(all_digits(w));
    assert(all_digits(wd)) by {
        assert forall|i: int| 0 <= i < wd.len() implies is_digit(#[trigger] wd[i]) by {
            if i < w.len() {
                assert(wd[i] == w[i]);
            }
        }
    }
    assert(digits_value(wd) == digits_value(w) * 10 + digit_value(d));
    lemma_digits_value_nonneg(w);
}

/// Behind a `-`, appending an ASCII digit `d` to a word that starts with a
/// digit and reads as `v` gives the word that reads as `-(10 * v + d)`, if
/// that fits in `i32` (down to `-2147483648`), and is rejected otherwise.
pub proof fn lemma_parse_append_digit_negative(w: Seq<char>, v: int, d: char)
    requires
        w.len() > 0,
        0x30 <= w[0] as u32 <= 0x39,
        spec_parse_i32(w) == Some(v),
        0x30 <= d as u32 <= 0x39,
    ensures
        spec_parse_i32(seq!['-'] + w.push(d)) == if 10 * v + (d as u32 - 0x30) <= 0x8000_0000 {
            Some(-(10 * v + (d as u32 - 0x30)))
        } else {
            None::<int>
        },
{
    let wd = w.push(d);
    let m = seq!['-'] + wd;
    assert(unsigned_part(w) == w);
    assert(m[0] == '-');
    assert(m.drop_first() =~= wd);
    assert(unsigned_part(m) == wd);
    assert(wd.drop_last() =~= w);
    assert(all_digits(w));
    assert(all_digits(wd)) by {
        assert forall|i: int| 0 <= i < wd.len() implies is_digit(#[trigger] wd[i]) by {
            if i < w.len() {
                assert(wd[i] == w[i]);
            }
        }
    }
    assert(digits_value(wd) == digits_value(w) * 10 + digit_value(d));
    lemma_digits_value_nonneg(w);
}

/// A leading `-` negates and a leading `+` keeps the value of a word that
/// starts with a digit and reads as `v`.
pub proof fn lemma_parse_sign(w: Seq<char>, v: int)
    requires
        w.len() > 0,
        0x30 <= w[0] as u32 <= 0x39,
        spec_parse_i32(w) == Some(v),
    ensures
        spec_parse_i32(seq!['-'] + w) == Some(-v),
        spec_parse_i32(seq!['+'] + w) == Some(v),
{
    assert(unsigned_part(w) == w);
    assert(all_digits(w));
    lemma_digits_value_nonneg(w);
    assert((seq!['-'] + w)[0] == '-');
    assert((seq!['+'] + w)[0] == '+');
    assert((seq!['-'] + w).drop_first() =~= w);
    assert((seq!['+'] + w).drop_first() =~= w);
}

/// A word is rejected when it is empty or only a sign, when it starts with
/// anything but an ASCII digit or a sign, or when any later character is
/// not an ASCII digit.
pub proof fn lemma_parse_rejects(w: Seq<char>)
    requires
        ({
            ||| w.len() == 0
            ||| w == seq!['-']
            ||| w == seq!['+']
            ||| !(0x30 <= w[0] as u32 <= 0x39 || w[0] == '-' || w[0] == '+')
            ||| exists|k: int| 1 <= k < w.len() && !(0x30 <= #[trigger] w[k] as u32 <= 0x39)
        }),
    ensures
        spec_parse_i32(w) is None,
{
    if w.len() > 0 && w != seq!['-'] && w != seq!['+'] {
        let d = unsigned_part(w);
        if !(0x30 <= w[0] as u32 <= 0x39 || w[0] == '-' || w[0] == '+') {
            assert(d == w);
            assert(!is_digit(d[0]));
        } else {
            let k = choose|k: int| 1 <= k < w.len() && !(0x30 <= #[trigger] w[k] as u32 <= 0x39);
            if w[0] == '-' || w[0] == '+' {
                assert(d[k - 1] == w[k]);
                assert(!is_digit(d[k - 1]));
            } else {
                assert(d[k] == w[k]);
                assert(!is_digit(d[k]));
            }
        }
    } else if w.len() > 0 {
        if w == seq!['-'] {
            assert(w[0] == '-');
            assert(unsigned_part(w).len() == 0);
        } else {
            assert(w[0] == '+');
            assert(unsigned_part(w).len() == 0);
        }
    }
}

/// Words after the fourth never matter: a line reads exactly like its
/// first four words, whatever its kind (a face line may list more than
/// three vertices; only the first three are checked).
pub proof fn lemma_obj_step_ignores_extra_words(acc: Option<Seq<Seq<Seq<char>>>>, line: Seq<Seq<char>>)
    requires
        line.len() >= 4,
    ensures
        obj_step(acc, line) == obj_step(acc, line.take(4)),
{
    let t = line.take(4);
    assert(t.len() == 4);
    assert(t[0] == line[0] && t[1] == line[1] && t[2] == line[2] && t[3] == line[3]);
}

/// A line starting with the word `v` and holding at least three more words
/// adds one vertex, whose coordinate words are the line's second, third and
/// fourth words, after the vertices read so far.
pub proof fn lemma_obj_vertex_line(lines: Seq<Seq<Seq<char>>>, line: Seq<Seq<char>>)
    requires
        spec_obj_vertices(lines) is Some,
        line.len() >= 4,
        line[0] == seq!['v'],
    ensures
        spec_obj_vertices(lines.push(line)) == Some(
            spec_obj_vertices(lines)->0.push(seq![line[1], line[2], line[3]]),
        ),
{
    assert(lines.push(line).drop_last() =~= lines);
    assert(is_tag(line[0], 'v'));
}

/// A line starting with the word `v` with fewer than three more words makes
/// the text malformed.
pub proof fn lemma_obj_short_vertex_line(lines: Seq<Seq<Seq<char>>>, line: Seq<Seq<char>>)
    requires
        1 <= line.len() < 4,
        line[0] == seq!['v'],
    ensures
        spec_obj_vertices(lines.push(line)) is None,
{
    assert(lines.push(line).drop_last() =~= lines);
    assert(is_tag(line[0], 'v'));
}

/// A line starting with the word `f` whose second, third and fourth words
/// each read (as an `i32`) as the index of a vertex from an earlier `v` line
/// is accepted and adds nothing, however many words follow.
pub proof fn lemma_obj_face_line_ok(lines: Seq<Seq<Seq<char>>>, line: Seq<Seq<char>>)
    requires
        spec_obj_vertices(lines) is Some,
        line.len() >= 4,
        line[0] == seq!['f'],
        forall|k: int|
            1 <= k < 4 ==> match spec_parse_i32(#[trigger] line[k]) {
                Some(i) => 0 <= i < count_vertex_lines(lines),
                None => false,
            },
    ensures
        spec_obj_vertices(lines.push(line)) == spec_obj_vertices(lines),
{
    lemma_one_vertex_per_v_line(lines);
    assert(lines.push(line).drop_last() =~= lines);
    assert(is_tag(line[0], 'f'));
    assert(!is_tag(line[0], 'v'));
    let n = spec_obj_vertices(lines)->0.len() as int;
    assert(spec_parse_i32(line[1]) is Some);
    assert(face_index_ok(line[1], n));
    assert(spec_parse_i32(line[2]) is Some);
    assert(face_index_ok(line[2], n));
    assert(spec_parse_i32(line[3]) is Some);
    assert(face_index_ok(line[3], n));
}

/// A line starting with the word `f` makes the text malformed when it has
/// fewer than three more words, or when one of its second to fourth words
/// does not read as the index of a vertex from an earlier `v` line.
pub proof fn lemma_obj_face_line_bad(lines: Seq<Seq<Seq<char>>>, line: Seq<Seq<char>>)
    requires
        line.len() >= 1,
        line[0] == seq!['f'],
        line.len() < 4 || exists|k: int|
            1 <= k < 4 && !(match spec_parse_i32(#[trigger] line[k]) {
                Some(i) => 0 <= i < count_vertex_lines(lines),
                None => false,
            }),
    ensures
        spec_obj_vertices(lines.push(line)) is None,
{
    assert(lines.push(line).drop_last() =~= lines);
    assert(is_tag(line[0], 'f'));
    assert(!is_tag(line[0], 'v'));
    if spec_obj_vertices(lines) is Some && line.len() >= 4 {
        lemma_one_vertex_per_v_line(lines);
        let n = spec_obj_vertices(lines)->0.len() as int;
        let k = choose|k: int|
            1 <= k < 4 && !(match spec_parse_i32(#[trigger] line[k]) {
                Some(i) => 0 <= i < count_vertex_lines(lines),
                None => false,
            });
        assert(!face_index_ok(line[k], n));
    }
}

} // verus!
