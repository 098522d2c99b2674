use vstd::prelude::*;

verus! {

/// A statement is the list of words of one source line.
pub type Words = Seq<Seq<char>>;

/// A vector of characters looks the same through both of its views.
pub broadcast proof fn lemma_chars_deep_view(v: &Vec<char>)
    ensures
        #[trigger] v.deep_view() == v@,
{
    assert(v.deep_view() =~= v@);
}

/// Unicode white space, the characters that separate words.
pub open spec fn is_space(c: char) -> bool {
    let u = c as u32;
    (0x09 <= u && u <= 0x0D) || u == 0x20 || u == 0x85 || u == 0xA0 || u == 0x1680
        || (0x2000 <= u && u <= 0x200A) || u == 0x2028 || u == 0x2029 || u == 0x202F
        || u == 0x205F || u == 0x3000
}

/// The lines read so far from `s` (ended by a newline), and the line being read.
pub open spec fn line_split(s: Seq<char>) -> (Seq<Seq<char>>, Seq<char>)
    decreases s.len(),
{
    if s.len() == 0 {
        (seq![], seq![])
    } else {
        let (done, cur) = line_split(s.drop_last());
        if s.last() == '\n' {
            (done.push(cur), seq![])
        } else {
            (done, cur.push(s.last()))
        }
    }
}

/// The lines of `s`: the pieces between newlines.
pub open spec fn lines(s: Seq<char>) -> Seq<Seq<char>> {
    line_split(s).0.push(line_split(s).1)
}

/// Where the first `//` of `l` at or after `i` starts, or the length of `l`.
pub open spec fn comment_start(l: Seq<char>, i: int) -> int
    decreases l.len() - i,
{
    if i < 0 || i + 1 >= l.len() {
        l.len() as int
    } else if l[i] == '/' && l[i + 1] == '/' {
        i
    } else {
        comment_start(l, i + 1)
    }
}

/// A line without its comment: what comes before its first `//`.
pub open spec fn code_part(l: Seq<char>) -> Seq<char> {
    l.take(comment_start(l, 0))
}

/// The words read so far from `s`, and the word being read.
pub open spec fn word_split(s: Seq<char>) -> (Seq<Seq<char>>, Seq<char>)
    decreases s.len(),
{
    if s.len() == 0 {
        (seq![], seq![])
    } else {
        let (done, cur) = word_split(s.drop_last());
        if !is_space(s.last()) {
            (done, cur.push(s.last()))
        } else if cur.len() > 0 {
            (done.push(cur), seq![])
        } else {
            (done, cur)
        }
    }
}

/// The words of `s`: its maximal runs of characters other than white space.
pub open spec fn words(s: Seq<char>) -> Words {
    let (done, cur) = word_split(s);
    if cur.len() > 0 {
        done.push(cur)
    } else {
        done
    }
}

/// The statements of a list of lines: the words of each line's code part,
/// for the lines that have any.
pub open spec fn statements_of(ls: Seq<Seq<char>>) -> Seq<Words>
    decreases ls.len(),
{
    if ls.len() == 0 {
        seq![]
    } else {
        let w = words(code_part(ls.last()));
        if w.len() > 0 {
            statements_of(ls.drop_last()).push(w)
        } else {
            statements_of(ls.drop_last())
        }
    }
}

/// The statements of a source text.
pub open spec fn statements(src: Seq<char>) -> Seq<Words> {
    statements_of(lines(src))
}

/// Whether `c` is white space.
pub fn is_space_exec(c: char) -> (r: bool)
    ensures
        r == is_space(c),
{
    let u = c as u32;
    (0x09 <= u && u <= 0x0D) || u == 0x20 || u == 0x85 || u == 0xA0 || u == 0x1680
        || (0x2000 <= u && u <= 0x200A) || u == 0x2028 || u == 0x2029 || u == 0x202F
        || u == 0x205F || u == 0x3000
}

/// The characters of a text.
pub fn chars_of(s: &str) -> (r: Vec<char>)
    ensures
        r@ == s@,
{
    broadcast use vstd::string::group_string_axioms;
    let mut r: Vec<char> = Vec::new();
    for c in it: s.chars()
        invariant
            r@ == it.seq().take(it.index() as int),
            it.seq() == s@,
    {
        r.push(c);
    }
    r
}


/// Where the comment of `l` starts, or its length where it has none.
fn find_comment(l: &Vec<char>) -> (r: usize)
    ensures
        r == comment_start(l@, 0),
{
    let mut i: usize = 0;
    while i < l.len() && i + 1 < l.len() && !(l[i] == '/' && l[i + 1] == '/')
        invariant
            i <= l@.len(),
            comment_start(l@, i as int) == comment_start(l@, 0),
        decreases l@.len() - i,
    {
        i = i + 1;
    }
    if i < l.len() && i + 1 < l.len() {
        i
    } else {
        l.len()
    }
}

proof fn lemma_comment_start_bound(l: Seq<char>, i: int)
    requires
        0 <= i,
    ensures
        0 <= comment_start(l, i) <= l.len(),
    decreases l.len() - i,
{
    if i + 1 < l.len() {
        lemma_comment_start_bound(l, i + 1);
    }
}

/// The words of the code part of a line.
fn line_words(l: &Vec<char>) -> (r: Vec<Vec<char>>)
    ensures
        r.deep_view() == words(code_part(l@)),
{
    let end = find_comment(l);
    proof {
        lemma_comment_start_bound(l@, 0);
    }
    let ghost code = code_part(l@);
    let mut done: Vec<Vec<char>> = Vec::new();
    let mut cur: Vec<char> = Vec::new();
    let mut i: usize = 0;
    while i < end
        invariant
            end == code.len(),
            end <= l@.len(),
            code == l@.take(end as int),
            i <= end,
            word_split(code.take(i as int)) == (done.deep_view(), cur@),
        decreases end - i,
    {
        let c = l[i];
        let ghost prev = done.deep_view();
        assert(code.take(i + 1).drop_last() =~= code.take(i as int));
        assert(code.take(i + 1).last() == c);
        if !is_space_exec(c) {
            cur.push(c);
        } else if cur.len() > 0 {
            let ghost wv = cur@;
            assert(cur.deep_view() =~= wv);
            done.push(cur);
            cur = Vec::new();
            assert(done.deep_view() =~= prev.push(wv));
        }
        i = i + 1;
    }
    assert(code.take(end as int) =~= code);
    if cur.len() > 0 {
        let ghost prev = done.deep_view();
        let ghost w = cur@;
        assert(cur.deep_view() =~= w);
        done.push(cur);
        assert(done.deep_view() =~= prev.push(w));
    }
    done
}

/// Splits a source text into statements: one for each line that has a word
/// before its comment, holding that line's words.
pub fn tokenize(src: &str) -> (r: Vec<Vec<Vec<char>>>)
    ensures
        r.deep_view() == statements(src@),
{
    let s = chars_of(src);
    let mut result: Vec<Vec<Vec<char>>> = Vec::new();
    let mut cur: Vec<char> = Vec::new();
    let ghost mut done: Seq<Seq<char>> = seq![];
    let mut i: usize = 0;
    while i < s.len()
        invariant
            i <= s@.len(),
            line_split(s@.take(i as int)) == (done, cur@),
            result.deep_view() == statements_of(done),
        decreases s@.len() - i,
    {
        let c = s[i];
        assert(s@.take(i + 1).drop_last() =~= s@.take(i as int));
        assert(s@.take(i + 1).last() == c);
        if c == '\n' {
            let w = line_words(&cur);
            let ghost prev = result.deep_view();
            proof {
                assert(done.push(cur@).drop_last() =~= done);
            }
            if w.len() > 0 {
                result.push(w);
                assert(result.deep_view() =~= prev.push(w.deep_view()));
            }
            proof {
                done = done.push(cur@);
            }
            cur = Vec::new();
        } else {
            cur.push(c);
        }
        i = i + 1;
    }
    assert(s@.take(s@.len() as int) =~= s@);
    let w = line_words(&cur);
    let ghost prev = result.deep_view();
    proof {
        assert(done.push(cur@).drop_last() =~= done);
    }
    if w.len() > 0 {
        result.push(w);
        assert(result.deep_view() =~= prev.push(w.deep_view()));
    }
    result
}

} // verus!
