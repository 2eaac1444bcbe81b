use vstd::prelude::*;
use vstd::string::*;

verus! {

/// `c` with an ASCII lowercase letter mapped to its uppercase form.
pub open spec fn ascii_upper(c: char) -> char {
    if 'a' <= c && c <= 'z' {
        ((c as u32) - 32) as char
    } else {
        c
    }
}

/// Relies on `char::to_ascii_uppercase`: `a`..`z` become `A`..`Z`, all else is kept.
pub assume_specification[ char::to_ascii_uppercase ](c: &char) -> (r: char)
    ensures
        r == ascii_upper(*c),
;

/// The first index at or after `from` that holds `c`, or `s.len()` if there is none.
pub open spec fn find_char(s: Seq<char>, from: int, c: char) -> int
    decreases s.len() - from,
{
    if from >= s.len() {
        s.len() as int
    } else if s[from] == c {
        from
    } else {
        find_char(s, from + 1, c)
    }
}

/// The distribution segment as displayed: hyphens become spaces, ASCII letters are upper case.
pub open spec fn shout(s: Seq<char>) -> Seq<char> {
    s.map_values(|c: char| ascii_upper(if c == '-' { ' ' } else { c }))
}

/// `"{distro} {initial}{rest} ({version})"` with the distribution segment shouted.
pub open spec fn composed(
    distro: Seq<char>,
    initial: Seq<char>,
    rest: Seq<char>,
    version: Seq<char>,
) -> Seq<char> {
    shout(distro) + seq![' '] + initial + rest + seq![' ', '('] + version + seq![')']
}

/// What Unicode gives as the uppercase mapping of `c` (one or more characters).
pub uninterp spec fn char_uppercase(c: char) -> Seq<char>;

/// The display name of a `{distro}_{edition}_{version}[_...]` name, if it has that shape:
/// at least three underscore-separated segments, the edition not empty.
pub open spec fn display_name_of(s: Seq<char>) -> Option<Seq<char>> {
    let i1 = find_char(s, 0, '_');
    let i2 = find_char(s, i1 + 1, '_');
    let i3 = find_char(s, i2 + 1, '_');
    if i1 >= s.len() || i2 >= s.len() || i2 == i1 + 1 {
        None
    } else {
        Some(
            composed(
                s.subrange(0, i1),
                char_uppercase(s[i1 + 1]),
                s.subrange(i1 + 2, i2),
                s.subrange(i2 + 1, i3),
            ),
        )
    }
}

proof fn lemma_find_char_bounds(s: Seq<char>, from: int, c: char)
    requires
        0 <= from,
    ensures
        from <= find_char(s, from, c) <= s.len() || (from > s.len() && find_char(s, from, c)
            == s.len()),
        find_char(s, from, c) < s.len() ==> s[find_char(s, from, c)] == c,
        forall|k: int| from <= k < find_char(s, from, c) ==> s[k] != c,
    decreases s.len() - from,
{
    if from < s.len() && s[from] != c {
        lemma_find_char_bounds(s, from + 1, c);
    }
}

/// Relies on `char::to_uppercase`, collected into a `String`.
#[verifier::external_body]
fn uppercase_char(c: char) -> (r: String)
    ensures
        r@ == char_uppercase(c),
{
    c.to_uppercase().collect()
}

/// The index of the first `c` in `s` at or after `from`, or the length of `s`.
fn find_from(s: &str, from: usize, c: char) -> (r: usize)
    requires
        from <= s@.len(),
    ensures
        r as int == find_char(s@, from as int, c),
{
    let n = s.unicode_len();
    let mut i = from;
    while i < n && s.get_char(i) != c
        invariant
            n == s@.len(),
            from <= i <= n,
            find_char(s@, i as int, c) == find_char(s@, from as int, c),
        decreases n - i,
    {
        i = i + 1;
    }
    i
}

/// Joins the parts of a display name: the distribution segment with hyphens turned into
/// spaces and ASCII letters in upper case, a space, the edition (its capitalised initial
/// and the rest as given), then the version in parentheses.
pub fn compose_display_name(distro: &str, initial: &str, rest: &str, version: &str) -> (r: String)
    ensures
        r@ == composed(distro@, initial@, rest@, version@),
{
    let mut out = String::new();
    let n = distro.unicode_len();
    let mut i: usize = 0;
    while i < n
        invariant
            n == distro@.len(),
            i <= n,
            out@ == shout(distro@.subrange(0, i as int)),
        decreases n - i,
    {
        let c = distro.get_char(i);
        let d = if c == '-' { ' ' } else { c };
        out.push(d.to_ascii_uppercase());
        assert(distro@.subrange(0, i + 1) =~= distro@.subrange(0, i as int).push(c));
        assert(out@ =~= shout(distro@.subrange(0, i + 1)));
        i = i + 1;
    }
    assert(distro@.subrange(0, n as int) =~= distro@);
    out.push(' ');
    out.append(initial);
    out.append(rest);
    out.push(' ');
    out.push('(');
    out.append(version);
    out.push(')');
    assert(out@ =~= composed(distro@, initial@, rest@, version@));
    out
}

/// The display name for a structured name `{distro}_{edition}_{version}[_...]`:
/// `"{DISTRO} {Edition} ({version})"`, or `None` when the name has fewer than three
/// underscore-separated segments or an empty edition.
pub fn format_name(name: &str) -> (r: Option<String>)
    ensures
        match (r, display_name_of(name@)) {
            (Some(x), Some(y)) => x@ == y,
            (None, None) => true,
            _ => false,
        },
{
    let n = name.unicode_len();
    let i1 = find_from(name, 0, '_');
    if i1 >= n {
        return None;
    }
    let i2 = find_from(name, i1 + 1, '_');
    if i2 >= n || i2 == i1 + 1 {
        return None;
    }
    let i3 = find_from(name, i2 + 1, '_');
    proof {
        lemma_find_char_bounds(name@, 0, '_');
        lemma_find_char_bounds(name@, i1 + 1, '_');
        lemma_find_char_bounds(name@, i2 + 1, '_');
    }
    let initial = uppercase_char(name.get_char(i1 + 1));
    let r = compose_display_name(
        name.substring_char(0, i1),
        initial.as_str(),
        name.substring_char(i1 + 2, i2),
        name.substring_char(i2 + 1, i3),
    );
    Some(r)
}

} // verus!
