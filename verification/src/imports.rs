//! The `import "module" as alias;` lines of a script's text, read without the
//! full parser: the command line registers plugins under these aliases.
use vstd::prelude::*;
use vstd::string::StrSliceExecFns;
use crate::text::push_char;

verus! {

/// Unicode white space, as `char::is_whitespace` has it.
pub open spec fn is_ws(c: char) -> bool {
    let x = c as u32;
    (0x09 <= x <= 0x0d) || x == 0x20 || x == 0x85 || x == 0xa0 || x == 0x1680
        || (0x2000 <= x <= 0x200a) || x == 0x2028 || x == 0x2029 || x == 0x202f || x == 0x205f || x == 0x3000
}

/// The text split at every line feed (a last line may be empty).
pub open spec fn split_lines(s: Seq<char>) -> Seq<Seq<char>>
    decreases s.len(),
{
    if s.len() == 0 {
        seq![Seq::empty()]
    } else {
        let rest = split_lines(s.drop_last());
        if s.last() == '\n' {
            rest.push(Seq::empty())
        } else {
            rest.update(rest.len() - 1, rest.last().push(s.last()))
        }
    }
}

/// The number of leading characters that are white space (`ws`) or equal to `c`.
pub open spec fn lead(s: Seq<char>, ws: bool, c: char) -> nat
    decreases s.len(),
{
    if s.len() == 0 {
        0
    } else if (ws && is_ws(s[0])) || (!ws && s[0] == c) {
        1 + lead(s.drop_first(), ws, c)
    } else {
        0
    }
}

/// The number of trailing characters that are white space (`ws`) or equal to `c`.
pub open spec fn trail(s: Seq<char>, ws: bool, c: char) -> nat
    decreases s.len(),
{
    if s.len() == 0 {
        0
    } else if (ws && is_ws(s.last())) || (!ws && s.last() == c) {
        1 + trail(s.drop_last(), ws, c)
    } else {
        0
    }
}

/// The text without its leading and trailing white space (`ws`) or `c`s.
pub open spec fn trim_both(s: Seq<char>, ws: bool, c: char) -> Seq<char> {
    if lead(s, ws, c) == s.len() { Seq::empty() } else { s.subrange(lead(s, ws, c) as int, s.len() - trail(s, ws, c)) }
}

/// The text without its trailing `c`s.
pub open spec fn trim_end(s: Seq<char>, c: char) -> Seq<char> {
    s.subrange(0, s.len() - trail(s, false, c))
}

/// The words of a text: its runs of characters other than white space.
pub open spec fn words(s: Seq<char>) -> Seq<Seq<char>>
    decreases s.len(),
{
    if s.len() == 0 {
        Seq::empty()
    } else {
        let w = words(s.drop_last());
        if is_ws(s.last()) {
            w
        } else if s.len() >= 2 && !is_ws(s[s.len() - 2]) {
            w.update(w.len() - 1, w.last().push(s.last()))
        } else {
            w.push(seq![s.last()])
        }
    }
}

/// The module and alias of one line, if it reads `import module as alias`: the
/// line trimmed starts with `import `, and among the words after it the second is
/// `as`; the module loses its surrounding quotes and the alias its final `;`s.
pub open spec fn import_of(line: Seq<char>) -> Option<(Seq<char>, Seq<char>)> {
    let t = trim_both(line, true, ' ');
    if t.len() >= 7 && t.subrange(0, 7) == "import "@ {
        let parts = words(t.subrange(7, t.len() as int));
        if parts.len() >= 3 && parts[1] == "as"@ {
            Some((trim_both(parts[0], false, '"'), trim_end(parts[2], ';')))
        } else {
            None
        }
    } else {
        None
    }
}

/// The alias and module of every import line of `lines`, in order.
pub open spec fn imports_of(lines: Seq<Seq<char>>) -> Seq<(Seq<char>, Seq<char>)>
    decreases lines.len(),
{
    if lines.len() == 0 {
        Seq::empty()
    } else {
        let rest = imports_of(lines.drop_last());
        match import_of(lines.last()) {
            Some((module, alias)) => rest.push((alias, module)),
            None => rest,
        }
    }
}

fn is_ws_exec(c: char) -> (r: bool)
    ensures
        r == is_ws(c),
{
    let x = c as u32;
    (0x09 <= x && x <= 0x0d) || x == 0x20 || x == 0x85 || x == 0xa0 || x == 0x1680
        || (0x2000 <= x && x <= 0x200a) || x == 0x2028 || x == 0x2029 || x == 0x202f || x == 0x205f || x == 0x3000
}

fn trims(c: char, ws: bool, t: char) -> (r: bool)
    ensures
        r == ((ws && is_ws(c)) || (!ws && c == t)),
{
    if ws { is_ws_exec(c) } else { c == t }
}

proof fn lemma_lead_prefix(s: Seq<char>, ws: bool, c: char, i: int)
    requires
        0 <= i <= s.len(),
        forall|j: int| 0 <= j < i ==> (ws && is_ws(#[trigger] s[j])) || (!ws && s[j] == c),
    ensures
        lead(s, ws, c) == i + lead(s.subrange(i, s.len() as int), ws, c),
    decreases i,
{
    if i > 0 {
        assert(s.drop_first().subrange(i - 1, s.len() - 1) =~= s.subrange(i, s.len() as int));
        lemma_lead_prefix(s.drop_first(), ws, c, i - 1);
    } else {
        assert(s.subrange(0, s.len() as int) =~= s);
    }
}

proof fn lemma_trail_suffix(s: Seq<char>, ws: bool, c: char, i: int)
    requires
        0 <= i <= s.len(),
        forall|j: int| s.len() - i <= j < s.len() ==> (ws && is_ws(#[trigger] s[j])) || (!ws && s[j] == c),
    ensures
        trail(s, ws, c) == i + trail(s.subrange(0, s.len() - i), ws, c),
    decreases i,
{
    if i > 0 {
        assert(s.drop_last().subrange(0, s.len() - 1 - (i - 1)) =~= s.subrange(0, s.len() - i));
        lemma_trail_suffix(s.drop_last(), ws, c, i - 1);
    } else {
        assert(s.subrange(0, s.len() as int) =~= s);
    }
}

proof fn lemma_trail_le(s: Seq<char>, ws: bool, c: char)
    ensures
        trail(s, ws, c) <= s.len(),
    decreases s.len(),
{
    if s.len() > 0 {
        lemma_trail_le(s.drop_last(), ws, c);
    }
}

proof fn lemma_lead_le(s: Seq<char>, ws: bool, c: char)
    ensures
        lead(s, ws, c) <= s.len(),
    decreases s.len(),
{
    if s.len() > 0 {
        lemma_lead_le(s.drop_first(), ws, c);
    }
}

/// The characters `from..to` of `s` as a string.
fn chars_between(s: &Vec<char>, from: usize, to: usize) -> (r: String)
    requires
        from <= to <= s@.len(),
    ensures
        r@ == s@.subrange(from as int, to as int),
{
    let mut out = String::new();
    let mut i = from;
    assert(out@ =~= s@.subrange(from as int, from as int));
    while i < to
        invariant
            from <= i <= to,
            to <= s@.len(),
            out@ == s@.subrange(from as int, i as int),
        decreases to - i,
    {
        push_char(&mut out, s[i]);
        assert(out@ =~= s@.subrange(from as int, i + 1));
        i += 1;
    }
    out
}

/// The characters of a text.
fn chars_of(s: &str) -> (r: Vec<char>)
    ensures
        r@ == s@,
{
    let n = s.unicode_len();
    let mut out: Vec<char> = Vec::new();
    let mut i: usize = 0;
    while i < n
        invariant
            i <= n,
            n == s@.len(),
            out@ == s@.subrange(0, i as int),
        decreases n - i,
    {
        out.push(s.get_char(i));
        assert(out@ =~= s@.subrange(0, i + 1));
        i += 1;
    }
    assert(out@ =~= s@);
    out
}

/// `s` without its leading and trailing white space (`ws`) or `c`s.
fn trim_chars(s: &Vec<char>, ws: bool, c: char) -> (r: Vec<char>)
    ensures
        r@ == trim_both(s@, ws, c),
{
    let n = s.len();
    let mut a: usize = 0;
    while a < n && trims(s[a], ws, c)
        invariant
            a <= n,
            n == s@.len(),
            forall|j: int| 0 <= j < a ==> (ws && is_ws(#[trigger] s@[j])) || (!ws && s@[j] == c),
        decreases n - a,
    {
        a += 1;
    }
    proof {
        lemma_lead_prefix(s@, ws, c, a as int);
        if a < n {
            assert(s@.subrange(a as int, n as int)[0] == s@[a as int]);
        } else {
            assert(s@.subrange(a as int, n as int).len() == 0);
        }
    }
    if a == n {
        return Vec::new();
    }
    let mut b: usize = n;
    while b > a && trims(s[b - 1], ws, c)
        invariant
            a < n,
            a <= b <= n,
            n == s@.len(),
            !((ws && is_ws(s@[a as int])) || (!ws && s@[a as int] == c)),
            forall|j: int| b <= j < n ==> (ws && is_ws(#[trigger] s@[j])) || (!ws && s@[j] == c),
        decreases b - a,
    {
        b -= 1;
    }
    proof {
        lemma_trail_suffix(s@, ws, c, (n - b) as int);
        assert(b > a);
        assert(s@.subrange(0, b as int).last() == s@[b - 1]);
    }
    let mut out: Vec<char> = Vec::new();
    let mut i = a;
    while i < b
        invariant
            a <= i <= b,
            b <= n,
            n == s@.len(),
            out@ == s@.subrange(a as int, i as int),
        decreases b - i,
    {
        out.push(s[i]);
        assert(out@ =~= s@.subrange(a as int, i + 1));
        i += 1;
    }
    out
}

/// `s` without its trailing `c`s.
fn trim_end_chars(s: &Vec<char>, c: char) -> (r: Vec<char>)
    ensures
        r@ == trim_end(s@, c),
{
    let n = s.len();
    let mut b: usize = n;
    while b > 0 && s[b - 1] == c
        invariant
            b <= n,
            n == s@.len(),
            forall|j: int| b <= j < n ==> #[trigger] s@[j] == c,
        decreases b,
    {
        b -= 1;
    }
    proof {
        lemma_trail_suffix(s@, false, c, (n - b) as int);
        if b > 0 {
            assert(s@.subrange(0, b as int).last() == s@[b - 1]);
        }
    }
    let mut out: Vec<char> = Vec::new();
    let mut i: usize = 0;
    while i < b
        invariant
            i <= b,
            b <= n,
            n == s@.len(),
            out@ == s@.subrange(0, i as int),
        decreases b - i,
    {
        out.push(s[i]);
        assert(out@ =~= s@.subrange(0, i + 1));
        i += 1;
    }
    out
}

/// The words of `s[from..]`.
fn words_from(s: &Vec<char>, from: usize) -> (r: Vec<Vec<char>>)
    requires
        from <= s@.len(),
    ensures
        r@.map_values(|w: Vec<char>| w@) == words(s@.subrange(from as int, s@.len() as int)),
{
    let n = s.len();
    let ghost t = s@.subrange(from as int, n as int);
    let mut out: Vec<Vec<char>> = Vec::new();
    let mut i = from;
    assert(out@.map_values(|w: Vec<char>| w@) =~= words(t.subrange(0, 0)));
    while i < n
        invariant
            from <= i <= n,
            n == s@.len(),
            t == s@.subrange(from as int, n as int),
            out@.map_values(|w: Vec<char>| w@) == words(t.subrange(0, i - from)),
        decreases n - i,
    {
        let c = s[i];
        let ghost pre = t.subrange(0, i - from);
        let ghost next = t.subrange(0, i - from + 1);
        assert(next.drop_last() =~= pre);
        assert(next.last() == c);
        if is_ws_exec(c) {
        } else if i > from && !is_ws_exec(s[i - 1]) {
            assert(next[next.len() - 2] == s@[i - 1]);
            proof {
                assert(pre.last() == s@[i - 1]);
                lemma_words_nonempty(pre);
            }
            let k = out.len() - 1;
            let ghost before = out@;
            let mut last = out.remove(k);
            last.push(c);
            out.push(last);
            assert(out@.map_values(|w: Vec<char>| w@) =~= words(next)) by {
                assert(before.map_values(|w: Vec<char>| w@).last() == before[k as int]@);
            }
        } else {
            let mut w: Vec<char> = Vec::new();
            w.push(c);
            out.push(w);
            assert(w@ =~= seq![c]);
            assert(out@.map_values(|w: Vec<char>| w@) =~= words(next));
        }
        i += 1;
    }
    assert(t.subrange(0, n - from) =~= t);
    out
}

proof fn lemma_words_nonempty(s: Seq<char>)
    requires
        s.len() > 0,
        !is_ws(s.last()),
    ensures
        words(s).len() > 0,
    decreases s.len(),
{
    if s.len() >= 2 && !is_ws(s[s.len() - 2]) {
        assert(s.drop_last().last() == s[s.len() - 2]);
        lemma_words_nonempty(s.drop_last());
    }
}

fn chars_eq(a: &Vec<char>, b: &str) -> (r: bool)
    ensures
        r == (a@ == b@),
{
    let bc = chars_of(b);
    if a.len() != bc.len() {
        return false;
    }
    let mut i: usize = 0;
    while i < a.len()
        invariant
            i <= a@.len(),
            a@.len() == bc@.len(),
            bc@ == b@,
            forall|j: int| 0 <= j < i ==> a@[j] == bc@[j],
        decreases a@.len() - i,
    {
        if a[i] != bc[i] {
            return false;
        }
        i += 1;
    }
    assert(a@ =~= bc@);
    true
}

/// The module and alias of one line, if it is an import line.
fn import_of_line(line: &Vec<char>) -> (r: Option<(String, String)>)
    ensures
        match import_of(line@) {
            Some((m, a)) => r matches Some((x, y)) && x@ == m && y@ == a,
            None => r is None,
        },
{
    let t = trim_chars(line, true, ' ');
    let ghost tv = t@;
    let prefix = chars_of("import ");
    proof { reveal_strlit("import "); }
    if t.len() < 7 {
        return None;
    }
    let mut k: usize = 0;
    while k < 7
        invariant
            k <= 7,
            t@ == trim_both(line@, true, ' '),
            t@.len() >= 7,
            prefix@ == "import "@,
            prefix@.len() == 7,
            forall|j: int| 0 <= j < k ==> t@[j] == prefix@[j],
        decreases 7 - k,
    {
        if t[k] != prefix[k] {
            proof {
                reveal_strlit("import ");
                assert(t@.subrange(0, 7)[k as int] != "import "@[k as int]);
            }
            return None;
        }
        k += 1;
    }
    proof {
        reveal_strlit("import ");
        assert(t@.subrange(0, 7) =~= "import "@);
    }
    let parts = words_from(&t, 7);
    proof {
        assert(parts@.map_values(|w: Vec<char>| w@).len() == parts@.len());
    }
    if parts.len() < 3 {
        return None;
    }
    let is_as = chars_eq(&parts[1], "as");
    proof {
        assert(parts@.map_values(|w: Vec<char>| w@)[1] == parts@[1]@);
    }
    if !is_as {
        return None;
    }
    let module = trim_chars(&parts[0], false, '"');
    let alias = trim_end_chars(&parts[2], ';');
    proof {
        assert(parts@.map_values(|w: Vec<char>| w@)[0] == parts@[0]@);
        assert(parts@.map_values(|w: Vec<char>| w@)[2] == parts@[2]@);
    }
    let m = chars_between(&module, 0, module.len());
    let a = chars_between(&alias, 0, alias.len());
    assert(module@.subrange(0, module@.len() as int) =~= module@);
    assert(alias@.subrange(0, alias@.len() as int) =~= alias@);
    Some((m, a))
}

/// The `(alias, module)` pairs of the import lines of a script's text, in order.
pub fn import_aliases(text: &str) -> (r: Vec<(String, String)>)
    ensures
        r@.map_values(|p: (String, String)| (p.0@, p.1@)) == imports_of(split_lines(text@)),
{
    let cs = chars_of(text);
    let n = cs.len();
    let mut out: Vec<(String, String)> = Vec::new();
    let mut line: Vec<char> = Vec::new();
    let mut i: usize = 0;
    assert(split_lines(cs@.subrange(0, 0)) =~= seq![Seq::<char>::empty()]);
    assert(imports_of(split_lines(cs@.subrange(0, 0)).drop_last()) =~= Seq::<(Seq<char>, Seq<char>)>::empty());
    while i < n
        invariant
            i <= n,
            n == cs@.len(),
            cs@ == text@,
            split_lines(cs@.subrange(0, i as int)).len() >= 1,
            split_lines(cs@.subrange(0, i as int)).last() == line@,
            out@.map_values(|p: (String, String)| (p.0@, p.1@))
                == imports_of(split_lines(cs@.subrange(0, i as int)).drop_last()),
        decreases n - i,
    {
        let c = cs[i];
        let ghost pre = cs@.subrange(0, i as int);
        let ghost next = cs@.subrange(0, i + 1);
        assert(next.drop_last() =~= pre);
        assert(next.last() == c);
        if c == '\n' {
            let ghost before = out@;
            match import_of_line(&line) {
                Some(p) => {
                    let (m, a) = p;
                    out.push((a, m));
                },
                None => {},
            }
            proof {
                let sl = split_lines(pre);
                assert(split_lines(next) == sl.push(Seq::empty()));
                assert(split_lines(next).drop_last() =~= sl);
                assert(sl.drop_last().push(sl.last()) =~= sl);
                assert(out@.map_values(|p: (String, String)| (p.0@, p.1@)) =~= imports_of(sl));
            }
            line = Vec::new();
        } else {
            line.push(c);
            proof {
                let sl = split_lines(pre);
                assert(split_lines(next) == sl.update(sl.len() - 1, sl.last().push(c)));
                assert(split_lines(next).drop_last() =~= sl.drop_last());
            }
        }
        i += 1;
    }
    let ghost sl = split_lines(cs@.subrange(0, i as int));
    match import_of_line(&line) {
        Some(p) => {
            let (m, a) = p;
            out.push((a, m));
        },
        None => {},
    }
    proof {
        assert(cs@.subrange(0, i as int) =~= text@);
        assert(sl.drop_last().push(sl.last()) =~= sl);
        assert(imports_of(sl) == match import_of(sl.last()) {
            Some((module, alias)) => imports_of(sl.drop_last()).push((alias, module)),
            None => imports_of(sl.drop_last()),
        });
        assert(out@.map_values(|p: (String, String)| (p.0@, p.1@)) =~= imports_of(sl));
    }
    out
}

} // verus!
