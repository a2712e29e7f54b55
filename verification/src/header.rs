use vstd::prelude::*;
use vstd::string::*;

verus! {

/// Optional whitespace around a header's name and value: a space or a tab.
pub open spec fn is_blank(c: char) -> bool {
    c == ' ' || c == '\t'
}

/// The text without its leading blanks.
pub open spec fn trim_start(s: Seq<char>) -> Seq<char>
    decreases s.len(),
{
    if s.len() > 0 && is_blank(s[0]) {
        trim_start(s.drop_first())
    } else {
        s
    }
}

/// The text without its trailing blanks.
pub open spec fn trim_end(s: Seq<char>) -> Seq<char>
    decreases s.len(),
{
    if s.len() > 0 && is_blank(s.last()) {
        trim_end(s.drop_last())
    } else {
        s
    }
}

/// The text without its leading and trailing blanks.
pub open spec fn trim(s: Seq<char>) -> Seq<char> {
    trim_end(trim_start(s))
}

/// `c` is the position of the first colon of the text.
pub open spec fn is_first_colon(text: Seq<char>, c: int) -> bool {
    &&& 0 <= c < text.len()
    &&& text[c] == ':'
    &&& forall|j: int| 0 <= j < c ==> text[j] != ':'
}

/// The header a `Key: Value` text gives: the name is what stands before the
/// first colon, the value what stands after it, each without its surrounding
/// blanks; none where the text has no colon or the name is empty.
pub open spec fn header_of(text: Seq<char>) -> Option<(Seq<char>, Seq<char>)> {
    if exists|c: int| is_first_colon(text, c) {
        let c = choose|c: int| is_first_colon(text, c);
        let name = trim(text.take(c));
        if name.len() == 0 {
            None
        } else {
            Some((name, trim(text.skip(c + 1))))
        }
    } else {
        None
    }
}

/// The text is made of blanks only.
pub open spec fn all_blank(s: Seq<char>) -> bool {
    forall|i: int| 0 <= i < s.len() ==> is_blank(#[trigger] s[i])
}

/// The text neither starts nor ends with a blank.
pub open spec fn unpadded(s: Seq<char>) -> bool {
    s.len() == 0 || (!is_blank(s[0]) && !is_blank(s.last()))
}

proof fn lemma_trim_start_blanks(b: Seq<char>, x: Seq<char>)
    requires
        all_blank(b),
    ensures
        trim_start(b + x) == trim_start(x),
    decreases b.len(),
{
    if b.len() > 0 {
        assert((b + x).drop_first() =~= b.drop_first() + x);
        assert((b + x)[0] == b[0]);
        lemma_trim_start_blanks(b.drop_first(), x);
    } else {
        assert(b + x =~= x);
    }
}

proof fn lemma_trim_end_blanks(x: Seq<char>, b: Seq<char>)
    requires
        all_blank(b),
    ensures
        trim_end(x + b) == trim_end(x),
    decreases b.len(),
{
    if b.len() > 0 {
        assert((x + b).drop_last() =~= x + b.drop_last());
        assert((x + b).last() == b.last());
        lemma_trim_end_blanks(x, b.drop_last());
    } else {
        assert(x + b =~= x);
    }
}

proof fn lemma_trim_padded(b1: Seq<char>, x: Seq<char>, b2: Seq<char>)
    requires
        all_blank(b1),
        all_blank(b2),
        unpadded(x),
    ensures
        trim(b1 + x + b2) == x,
{
    lemma_trim_start_blanks(b1, x + b2);
    assert(b1 + x + b2 =~= b1 + (x + b2));
    if x.len() > 0 {
        assert((x + b2)[0] == x[0]);
        assert(trim_start(x + b2) == x + b2);
        lemma_trim_end_blanks(x, b2);
    } else {
        assert(x + b2 =~= b2);
        lemma_trim_start_blanks(b2, Seq::empty());
        assert(b2 + Seq::<char>::empty() =~= b2);
        assert(trim_start(Seq::<char>::empty()) == Seq::<char>::empty());
    }
}

/// A header written as a name, a colon and a value, with any blanks around the
/// name and the value, gives that name and that value whole: everything after
/// the first colon but the surrounding blanks is the value (colons included).
/// The name must be non-empty and hold no colon; name and value must not start
/// or end with a blank.
pub proof fn lemma_header_parts(
    b1: Seq<char>,
    name: Seq<char>,
    b2: Seq<char>,
    b3: Seq<char>,
    value: Seq<char>,
    b4: Seq<char>,
)
    requires
        all_blank(b1),
        all_blank(b2),
        all_blank(b3),
        all_blank(b4),
        name.len() > 0,
        unpadded(name),
        unpadded(value),
        forall|i: int| 0 <= i < name.len() ==> name[i] != ':',
    ensures
        header_of(b1 + name + b2 + seq![':'] + b3 + value + b4) == Some((name, value)),
{
    let head = b1 + name + b2;
    let tail = b3 + value + b4;
    let text = head + seq![':'] + tail;
    assert(b1 + name + b2 + seq![':'] + b3 + value + b4 =~= text);
    let c = head.len() as int;
    assert forall|j: int| 0 <= j < c implies text[j] != ':' by {
        assert(text[j] == head[j]);
        if j < b1.len() {
            assert(head[j] == b1[j]);
            assert(is_blank(b1[j]));
        } else if j < b1.len() + name.len() {
            assert(head[j] == name[j - b1.len()]);
        } else {
            assert(head[j] == b2[j - b1.len() - name.len()]);
            assert(is_blank(b2[j - b1.len() - name.len()]));
        }
    }
    assert(text[c] == ':');
    assert(is_first_colon(text, c));
    let chosen = choose|k: int| is_first_colon(text, k);
    assert(chosen == c) by {
        if chosen < c {
            assert(text[chosen] != ':');
        } else if chosen > c {
            assert(text[c] != ':');
        }
    }
    assert(text.take(c) =~= head);
    assert(text.skip(c + 1) =~= tail);
    lemma_trim_padded(b1, name, b2);
    lemma_trim_padded(b3, value, b4);
}

/// The text without its leading and trailing blanks.
fn trim_text(s: &str) -> (trimmed: String)
    ensures
        trimmed@ == trim(s@),
{
    let n = s.unicode_len();
    let mut a: usize = 0;
    assert(s@.skip(0) =~= s@);
    while a < n && is_blank_char(s.get_char(a))
        invariant
            n == s@.len(),
            a <= n,
            trim_start(s@) == trim_start(s@.skip(a as int)),
        decreases n - a,
    {
        assert(s@.skip(a as int).drop_first() =~= s@.skip(a + 1));
        a = a + 1;
    }
    let ghost rest = s@.skip(a as int);
    assert(trim_start(rest) == rest);
    let mut b: usize = n;
    assert(rest =~= s@.subrange(a as int, n as int));
    while b > a && is_blank_char(s.get_char(b - 1))
        invariant
            n == s@.len(),
            a <= b <= n,
            trim_end(rest) == trim_end(s@.subrange(a as int, b as int)),
        decreases b - a,
    {
        assert(s@.subrange(a as int, b as int).drop_last() =~= s@.subrange(a as int, b - 1));
        b = b - 1;
    }
    let ghost kept = s@.subrange(a as int, b as int);
    assert(trim_end(kept) == kept);
    String::from_str(s.substring_char(a, b))
}

/// Whether the character is a blank.
fn is_blank_char(c: char) -> (blank: bool)
    ensures
        blank == is_blank(c),
{
    c == ' ' || c == '\t'
}

/// Reads a `Key: Value` header given on the command line (see `header_of`).
pub fn parse_header(text: &str) -> (header: Option<(String, String)>)
    ensures
        header matches Some(h) ==> header_of(text@) == Some((h.0@, h.1@)),
        header is None ==> header_of(text@) is None,
{
    let n = text.unicode_len();
    let mut c: usize = 0;
    while c < n && text.get_char(c) != ':'
        invariant
            n == text@.len(),
            c <= n,
            forall|j: int| 0 <= j < c ==> text@[j] != ':',
        decreases n - c,
    {
        c = c + 1;
    }
    if c == n {
        assert(!exists|k: int| is_first_colon(text@, k));
        return None;
    }
    assert(is_first_colon(text@, c as int));
    let ghost chosen = choose|k: int| is_first_colon(text@, k);
    assert(chosen == c) by {
        if chosen < c {
            assert(text@[chosen] != ':');
        } else if chosen > c {
            assert(text@[c as int] != ':');
        }
    }
    let before = text.substring_char(0, c);
    assert(before@ =~= text@.take(c as int));
    let name = trim_text(before);
    if name.as_str().unicode_len() == 0 {
        return None;
    }
    let after = text.substring_char(c + 1, n);
    assert(after@ =~= text@.skip(c + 1));
    let value = trim_text(after);
    Some((name, value))
}

} // verus!
