//! Character-level helpers shared by the modules that build or scan text.
use vstd::prelude::*;
use vstd::string::*;

verus! {

/// Relies on `String::push`: the character is appended at the end.
#[verifier::external_body]
pub(crate) fn push_char(s: &mut String, c: char)
    ensures
        final(s)@ == old(s)@.push(c),
{
    s.push(c)
}

/// The characters of `s`, in order.
pub fn chars_of(s: &str) -> (r: Vec<char>)
    ensures
        r@ == s@,
{
    let n = s.unicode_len();
    let mut r: Vec<char> = Vec::new();
    let mut i: usize = 0;
    while i < n
        invariant
            n == s@.len(),
            i <= n,
            r@ == s@.subrange(0, i as int),
        decreases n - i,
    {
        r.push(s.get_char(i));
        i += 1;
    }
    assert(r@ =~= s@);
    r
}

/// The string made of the characters of `v`, in order.
pub fn string_of(v: &[char]) -> (r: String)
    ensures
        r@ == v@,
{
    let mut r = String::new();
    let mut i: usize = 0;
    while i < v.len()
        invariant
            i <= v@.len(),
            r@ == v@.subrange(0, i as int),
        decreases v@.len() - i,
    {
        push_char(&mut r, v[i]);
        i += 1;
    }
    assert(r@ =~= v@);
    r
}

/// Whether two strings hold the same characters.
pub fn str_eq(a: &str, b: &str) -> (r: bool)
    ensures
        r == (a@ == b@),
{
    let n = a.unicode_len();
    let m = b.unicode_len();
    if n != m {
        return false;
    }
    let mut i: usize = 0;
    while i < n
        invariant
            n == a@.len(),
            m == b@.len(),
            n == m,
            i <= n,
            a@.subrange(0, i as int) == b@.subrange(0, i as int),
        decreases n - i,
    {
        if a.get_char(i) != b.get_char(i) {
            assert(a@[i as int] != b@[i as int]);
            return false;
        }
        assert(a@.subrange(0, i + 1) =~= a@.subrange(0, i as int).push(a@[i as int]));
        assert(b@.subrange(0, i + 1) =~= b@.subrange(0, i as int).push(b@[i as int]));
        i += 1;
    }
    assert(a@ =~= a@.subrange(0, n as int));
    assert(b@ =~= b@.subrange(0, n as int));
    true
}

/// `p` occurs in `s` starting at position `k`.
pub open spec fn occurs_at(s: Seq<char>, p: Seq<char>, k: int) -> bool {
    0 <= k && k + p.len() <= s.len() && s.subrange(k, k + p.len()) == p
}

/// `p` occurs somewhere in `s`.
pub open spec fn has_sub(s: Seq<char>, p: Seq<char>) -> bool {
    exists|k: int| occurs_at(s, p, k)
}

/// `s` starts with `p`.
pub open spec fn has_prefix(s: Seq<char>, p: Seq<char>) -> bool {
    p.len() <= s.len() && s.subrange(0, p.len() as int) == p
}

/// The blanks that trimming removes from either end of a line.
pub open spec fn is_blank(c: char) -> bool {
    c == ' ' || c == '\t' || c == '\r'
}

pub open spec fn trim_front(s: Seq<char>) -> Seq<char>
    decreases s.len(),
{
    if s.len() > 0 && is_blank(s[0]) {
        trim_front(s.drop_first())
    } else {
        s
    }
}

pub open spec fn trim_back(s: Seq<char>) -> Seq<char>
    decreases s.len(),
{
    if s.len() > 0 && is_blank(s.last()) {
        trim_back(s.drop_last())
    } else {
        s
    }
}

/// `s` without its leading and trailing blanks.
pub open spec fn trim_blanks(s: Seq<char>) -> Seq<char> {
    trim_back(trim_front(s))
}

/// Whether `p` occurs in `s` at position `k`.
pub fn occurs_at_exec(s: &[char], p: &[char], k: usize) -> (r: bool)
    ensures
        r == occurs_at(s@, p@, k as int),
{
    if k > s.len() || p.len() > s.len() - k {
        return false;
    }
    let mut i: usize = 0;
    while i < p.len()
        invariant
            k + p@.len() <= s@.len(),
            s@.len() <= usize::MAX,
            i <= p@.len(),
            forall|j: int| 0 <= j < i ==> s@[k + j] == p@[j],
        decreases p@.len() - i,
    {
        if s[k + i] != p[i] {
            assert(s@.subrange(k as int, k + p@.len())[i as int] != p@[i as int]);
            return false;
        }
        i += 1;
    }
    assert(s@.subrange(k as int, k + p@.len()) =~= p@);
    true
}

/// Whether `p` occurs anywhere in `s`.
pub fn contains_chars(s: &[char], p: &[char]) -> (r: bool)
    ensures
        r == has_sub(s@, p@),
{
    if p.len() > s.len() {
        assert(forall|k: int| !occurs_at(s@, p@, k));
        return false;
    }
    if p.len() == 0 {
        assert(s@.subrange(0, 0) =~= p@);
        assert(occurs_at(s@, p@, 0));
        return true;
    }
    let last = s.len() - p.len();
    let mut k: usize = 0;
    while k <= last
        invariant
            last == s@.len() - p@.len(),
            p@.len() > 0,
            s@.len() <= usize::MAX,
            k <= last + 1,
            forall|j: int| 0 <= j < k ==> !occurs_at(s@, p@, j),
        decreases last + 1 - k,
    {
        if occurs_at_exec(s, p, k) {
            return true;
        }
        k += 1;
    }
    assert(forall|j: int| !occurs_at(s@, p@, j));
    false
}

/// Whether `s` starts with `p`.
pub fn starts_with_chars(s: &[char], p: &[char]) -> (r: bool)
    ensures
        r == has_prefix(s@, p@),
{
    let r = occurs_at_exec(s, p, 0);
    assert(r == has_prefix(s@, p@)) by {
        if p@.len() <= s@.len() {
            assert(s@.subrange(0, 0 + p@.len() as int) == s@.subrange(0, p@.len() as int));
        }
    }
    r
}

fn is_blank_exec(c: char) -> (r: bool)
    ensures
        r == is_blank(c),
{
    c == ' ' || c == '\t' || c == '\r'
}

/// The characters of `s[from..to]`.
pub fn slice_chars(s: &[char], from: usize, to: usize) -> (r: Vec<char>)
    requires
        from <= to <= s@.len(),
    ensures
        r@ == s@.subrange(from as int, to as int),
{
    let mut r: Vec<char> = Vec::new();
    let mut i: usize = from;
    while i < to
        invariant
            from <= i <= to,
            to <= s@.len(),
            r@ == s@.subrange(from as int, i as int),
        decreases to - i,
    {
        r.push(s[i]);
        i += 1;
    }
    r
}

/// `s` without its leading and trailing blanks.
pub fn trim_chars(s: &[char]) -> (r: Vec<char>)
    ensures
        r@ == trim_blanks(s@),
{
    let n = s.len();
    assert(s@.subrange(0, n as int) =~= s@);
    let mut a: usize = 0;
    while a < n && is_blank_exec(s[a])
        invariant
            n == s@.len(),
            a <= n,
            trim_front(s@) == trim_front(s@.subrange(a as int, n as int)),
        decreases n - a,
    {
        assert(s@.subrange(a as int, n as int).drop_first() =~= s@.subrange(a + 1, n as int));
        a += 1;
    }
    assert(trim_front(s@) == s@.subrange(a as int, n as int));
    let mut b: usize = n;
    while b > a && is_blank_exec(s[b - 1])
        invariant
            n == s@.len(),
            a <= b <= n,
            trim_front(s@) == s@.subrange(a as int, n as int),
            trim_blanks(s@) == trim_back(s@.subrange(a as int, b as int)),
        decreases b - a,
    {
        assert(s@.subrange(a as int, b as int).drop_last() =~= s@.subrange(a as int, b - 1));
        b -= 1;
    }
    slice_chars(s, a, b)
}

/// The text of `lines`, each ended by a newline.
pub open spec fn join_lines(lines: Seq<Seq<char>>) -> Seq<char>
    decreases lines.len(),
{
    if lines.len() == 0 {
        Seq::empty()
    } else {
        join_lines(lines.drop_last()) + lines.last().push('\n')
    }
}

/// Scanning `t` from the left: the finished lines, and the line still open.
pub open spec fn split_state(t: Seq<char>) -> (Seq<Seq<char>>, Seq<char>)
    decreases t.len(),
{
    if t.len() == 0 {
        (Seq::empty(), Seq::empty())
    } else {
        let (done, cur) = split_state(t.drop_last());
        if t.last() == '\n' {
            (done.push(cur), Seq::empty())
        } else {
            (done, cur.push(t.last()))
        }
    }
}

/// The lines of `t`: split at each newline; a final newline opens no further line.
pub open spec fn split_lines(t: Seq<char>) -> Seq<Seq<char>> {
    let (done, cur) = split_state(t);
    if cur.len() == 0 {
        done
    } else {
        done.push(cur)
    }
}

/// No line holds a newline.
pub open spec fn newline_free(lines: Seq<Seq<char>>) -> bool {
    forall|i: int| 0 <= i < lines.len() ==> !(#[trigger] lines[i]).contains('\n')
}

pub open spec fn lines_view(v: Seq<Vec<char>>) -> Seq<Seq<char>> {
    v.map_values(|l: Vec<char>| l@)
}

/// The lines of `t`.
pub fn split_into_lines(t: &[char]) -> (r: Vec<Vec<char>>)
    ensures
        lines_view(r@) == split_lines(t@),
        newline_free(lines_view(r@)),
{
    let mut done: Vec<Vec<char>> = Vec::new();
    let mut cur: Vec<char> = Vec::new();
    let mut i: usize = 0;
    while i < t.len()
        invariant
            i <= t@.len(),
            split_state(t@.subrange(0, i as int)) == (lines_view(done@), cur@),
            newline_free(lines_view(done@)),
            !cur@.contains('\n'),
        decreases t@.len() - i,
    {
        assert(t@.subrange(0, i + 1).drop_last() =~= t@.subrange(0, i as int));
        let c = t[i];
        if c == '\n' {
            let mut line: Vec<char> = Vec::new();
            core::mem::swap(&mut line, &mut cur);
            let ghost before = done@;
            let ghost lv = line@;
            done.push(line);
            assert(lines_view(done@) =~= lines_view(before).push(lv));
            assert(cur@ =~= Seq::<char>::empty());
        } else {
            let ghost c0 = cur@;
            cur.push(c);
            assert(!cur@.contains('\n')) by {
                assert forall|j: int| 0 <= j < cur@.len() implies cur@[j] != '\n' by {
                    if j < c0.len() {
                        assert(cur@[j] == c0[j]);
                    }
                }
            }
        }
        i += 1;
    }
    assert(t@.subrange(0, t@.len() as int) =~= t@);
    if cur.len() > 0 {
        let ghost before = done@;
        let ghost lv = cur@;
        done.push(cur);
        assert(lines_view(done@) =~= lines_view(before).push(lv));
    }
    done
}

/// The text of `lines`, each ended by a newline.
pub fn join_into_text(lines: &Vec<Vec<char>>) -> (r: Vec<char>)
    ensures
        r@ == join_lines(lines_view(lines@)),
{
    let mut r: Vec<char> = Vec::new();
    let mut i: usize = 0;
    while i < lines.len()
        invariant
            i <= lines@.len(),
            r@ == join_lines(lines_view(lines@).subrange(0, i as int)),
        decreases lines@.len() - i,
    {
        assert(lines_view(lines@).subrange(0, i + 1).drop_last() =~= lines_view(lines@).subrange(0, i as int));
        let line = &lines[i];
        let mut j: usize = 0;
        let ghost r0 = r@;
        while j < line.len()
            invariant
                j <= line@.len(),
                r@ == r0 + line@.subrange(0, j as int),
            decreases line@.len() - j,
        {
            r.push(line[j]);
            assert(r0 + line@.subrange(0, j + 1) =~= (r0 + line@.subrange(0, j as int)).push(line@[j as int]));
            j += 1;
        }
        r.push('\n');
        assert(line@.subrange(0, line@.len() as int) =~= line@);
        assert(r@ =~= r0 + line@.push('\n'));
        i += 1;
    }
    assert(lines_view(lines@).subrange(0, lines@.len() as int) =~= lines_view(lines@));
    r
}

/// Whether two character sequences are equal.
pub fn chars_eq(a: &[char], b: &[char]) -> (r: bool)
    ensures
        r == (a@ == b@),
{
    if a.len() != b.len() {
        return false;
    }
    let r = occurs_at_exec(a, b, 0);
    assert(a@.subrange(0, 0 + b@.len() as int) == a@.subrange(0, a@.len() as int));
    assert(a@.subrange(0, a@.len() as int) =~= a@);
    r
}

/// Splitting a text that ends with `line` (no newline in it) leaves `line` open.
proof fn lemma_split_state_append(x: Seq<char>, line: Seq<char>)
    requires
        !line.contains('\n'),
    ensures
        split_state(x + line) == (split_state(x).0, split_state(x).1 + line),
    decreases line.len(),
{
    if line.len() == 0 {
        assert(x + line =~= x);
        assert(split_state(x).1 + line =~= split_state(x).1);
    } else {
        let l0 = line.drop_last();
        assert(!l0.contains('\n')) by {
            assert forall|j: int| 0 <= j < l0.len() implies l0[j] != '\n' by {
                assert(l0[j] == line[j]);
            }
        }
        lemma_split_state_append(x, l0);
        assert((x + line).drop_last() =~= x + l0);
        assert((x + line).last() == line.last());
        assert(line[line.len() - 1] != '\n');
        assert(split_state(x).1 + l0.push(line.last()) =~= split_state(x).1 + line);
        assert((split_state(x).1 + l0).push(line.last()) =~= split_state(x).1 + line);
    }
}

/// Splitting joined lines gives the lines back, when none holds a newline.
pub proof fn lemma_split_join(lines: Seq<Seq<char>>)
    requires
        newline_free(lines),
    ensures
        split_state(join_lines(lines)) == (lines, Seq::<char>::empty()),
        split_lines(join_lines(lines)) == lines,
    decreases lines.len(),
{
    if lines.len() > 0 {
        let init = lines.drop_last();
        assert(newline_free(init)) by {
            assert forall|i: int| 0 <= i < init.len() implies !(#[trigger] init[i]).contains('\n') by {
                assert(init[i] == lines[i]);
            }
        }
        lemma_split_join(init);
        let last = lines.last();
        assert(!lines[lines.len() - 1].contains('\n'));
        let t = join_lines(init) + last.push('\n');
        assert(join_lines(lines) == t);
        lemma_split_state_append(join_lines(init), last);
        assert(t.drop_last() =~= join_lines(init) + last);
        assert(t.last() == '\n');
        assert(Seq::<char>::empty() + last =~= last);
        assert(init.push(last) =~= lines);
    }
}

/// The lines that splitting yields hold no newline.
pub proof fn lemma_split_newline_free(t: Seq<char>)
    ensures
        newline_free(split_state(t).0),
        !split_state(t).1.contains('\n'),
        newline_free(split_lines(t)),
    decreases t.len(),
{
    if t.len() > 0 {
        lemma_split_newline_free(t.drop_last());
        let (done, cur) = split_state(t.drop_last());
        if t.last() == '\n' {
            assert forall|i: int| 0 <= i < done.push(cur).len() implies !(#[trigger] done.push(cur)[i]).contains('\n') by {
                if i < done.len() {
                    assert(done.push(cur)[i] == done[i]);
                }
            }
        } else {
            assert forall|j: int| 0 <= j < cur.push(t.last()).len() implies cur.push(t.last())[j] != '\n' by {
                if j < cur.len() {
                    assert(cur.push(t.last())[j] == cur[j]);
                }
            }
        }
    }
    let (done, cur) = split_state(t);
    if cur.len() > 0 {
        assert forall|i: int| 0 <= i < done.push(cur).len() implies !(#[trigger] done.push(cur)[i]).contains('\n') by {
            if i < done.len() {
                assert(done.push(cur)[i] == done[i]);
            }
        }
    }
}

/// A character missing from both parts is missing from their concatenation.
pub proof fn lemma_concat_lacks(a: Seq<char>, b: Seq<char>, c: char)
    requires
        !a.contains(c),
        !b.contains(c),
    ensures
        !(a + b).contains(c),
{
    assert forall|j: int| 0 <= j < (a + b).len() implies (a + b)[j] != c by {
        if j < a.len() {
            assert((a + b)[j] == a[j]);
        } else {
            assert((a + b)[j] == b[j - a.len()]);
        }
    }
}

/// A pattern that starts with `c` does not occur in a text that lacks `c`.
pub proof fn lemma_lacks_first(s: Seq<char>, p: Seq<char>)
    requires
        p.len() > 0,
        !s.contains(p[0]),
    ensures
        !has_sub(s, p),
{
    if has_sub(s, p) {
        let k = choose|k: int| occurs_at(s, p, k);
        assert(s.subrange(k, k + p.len())[0] == s[k]);
        assert(s[k] == p[0]);
    }
}

} // verus!
