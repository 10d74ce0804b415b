//! Per-language naming conventions read off symbol names, and the small
//! name-building rules every front end shares.

use vstd::prelude::*;
use crate::text::{
    chars_of, ends_with, exec_is_ascii_upper, is_ascii_digit, is_ascii_upper, seq_ends_with,
    seq_starts_with, starts_with, string_from_chars, to_owned_string,
};
use crate::parser::{append_chars, spec_qual, ExtractedNode, ExtractedRef};

verus! {

/// Whether a char beyond ASCII has the Unicode `Uppercase` property (the
/// result of `char::is_uppercase` there).
pub uninterp spec fn non_ascii_is_uppercase(c: char) -> bool;

/// Whether `c` has the Unicode `Uppercase` property: for ASCII exactly the
/// letters `A`..=`Z`.
pub open spec fn unicode_is_uppercase(c: char) -> bool {
    if (c as u32) < 128 { is_ascii_upper(c) } else { non_ascii_is_uppercase(c) }
}

/// Calls `char::is_uppercase`. Beyond ASCII its result is named
/// `non_ascii_is_uppercase`; for ASCII the contract states what the Unicode
/// tables give: the letters `A`..=`Z` are upper case and no other ASCII char
/// is.
#[verifier::external_body]
pub fn char_is_uppercase(c: char) -> (r: bool)
    ensures
        (c as u32) >= 128 ==> r == non_ascii_is_uppercase(c),
        is_ascii_upper(c) ==> r,
        (c as u32) < 128 && !is_ascii_upper(c) ==> !r,
        r == unicode_is_uppercase(c),
{
    c.is_uppercase()
}

/// Python visibility convention: a leading underscore marks a private name,
/// except dunder names (`__init__`), which are public.
pub open spec fn spec_python_visibility(name: Seq<char>) -> Seq<char> {
    if seq_starts_with(name, seq!['_', '_']) && seq_ends_with(name, seq!['_', '_']) {
        Seq::empty()
    } else if seq_starts_with(name, seq!['_']) {
        "private"@
    } else {
        Seq::empty()
    }
}

/// Python visibility of a name: `"private"` or the empty string.
pub fn python_visibility(name: &str) -> (r: String)
    ensures
        r@ == spec_python_visibility(name@),
{
    let v = chars_of(name);
    let dunder: Vec<char> = vec!['_', '_'];
    let under: Vec<char> = vec!['_'];
    assert(dunder@ =~= seq!['_', '_']);
    assert(under@ =~= seq!['_']);
    if starts_with(&v, &dunder) && ends_with(&v, &dunder) {
        return String::new();
    }
    if starts_with(&v, &under) {
        to_owned_string("private")
    } else {
        String::new()
    }
}

/// UPPER_SNAKE_CASE: non-empty, only ASCII upper-case letters, digits and
/// `_`, and at least one upper-case letter.
pub open spec fn spec_is_upper_snake_case(name: Seq<char>) -> bool {
    &&& name.len() > 0
    &&& forall|i: int| 0 <= i < name.len() ==>
        (is_ascii_upper(#[trigger] name[i]) || name[i] == '_' || is_ascii_digit(name[i]))
    &&& exists|i: int| 0 <= i < name.len() && is_ascii_upper(#[trigger] name[i])
}

/// Whether a name follows the Python constant convention.
pub fn is_upper_snake_case(name: &str) -> (r: bool)
    ensures
        r == spec_is_upper_snake_case(name@),
{
    let v = chars_of(name);
    if v.len() == 0 {
        return false;
    }
    let mut any_upper = false;
    let mut i: usize = 0;
    while i < v.len()
        invariant
            i <= v@.len(),
            v@ == name@,
            forall|k: int| 0 <= k < i ==>
                (is_ascii_upper(#[trigger] v@[k]) || v@[k] == '_' || is_ascii_digit(v@[k])),
            any_upper == exists|k: int| 0 <= k < i && is_ascii_upper(#[trigger] v@[k]),
        decreases v@.len() - i,
    {
        let c = v[i];
        let up = exec_is_ascii_upper(c);
        if !(up || c == '_' || ('0' <= c && c <= '9')) {
            proof {
                let k = i as int;
                assert(!(is_ascii_upper(name@[k]) || name@[k] == '_' || is_ascii_digit(name@[k])));
            }
            return false;
        }
        if up {
            any_upper = true;
        }
        i += 1;
    }
    any_upper
}

/// Go export convention: a name is exported iff its first char is upper case.
pub open spec fn spec_go_visibility(name: Seq<char>) -> Seq<char> {
    if name.len() > 0 && unicode_is_uppercase(name[0]) {
        "public"@
    } else {
        "package"@
    }
}

/// Go visibility of a name: `"public"` or `"package"`.
pub fn go_visibility(name: &str) -> (r: String)
    ensures
        r@ == spec_go_visibility(name@),
{
    let v = chars_of(name);
    if v.len() > 0 && char_is_uppercase(v[0]) {
        to_owned_string("public")
    } else {
        to_owned_string("package")
    }
}

/// Joins two `use`-path pieces with `::`, dropping empty pieces.
pub open spec fn spec_join_use_path(prefix: Seq<char>, tail: Seq<char>) -> Seq<char> {
    if prefix.len() == 0 {
        tail
    } else if tail.len() == 0 {
        prefix
    } else {
        spec_qual(prefix, tail)
    }
}

/// Joins a `use`-path prefix and tail.
pub fn join_use_path(prefix: &str, tail: &str) -> (r: String)
    ensures
        r@ == spec_join_use_path(prefix@, tail@),
{
    let p = chars_of(prefix);
    let t = chars_of(tail);
    if p.len() == 0 {
        string_from_chars(&t)
    } else if t.len() == 0 {
        string_from_chars(&p)
    } else {
        let mut v = p;
        v.push(':');
        v.push(':');
        append_chars(&mut v, &t);
        assert(v@ =~= spec_qual(prefix@, tail@));
        string_from_chars(&v)
    }
}

/// The ASCII character of a decimal digit.
pub open spec fn digit_char(d: int) -> char {
    if d == 0 { '0' }
    else if d == 1 { '1' }
    else if d == 2 { '2' }
    else if d == 3 { '3' }
    else if d == 4 { '4' }
    else if d == 5 { '5' }
    else if d == 6 { '6' }
    else if d == 7 { '7' }
    else if d == 8 { '8' }
    else { '9' }
}

/// Decimal representation of a natural number, without leading zeros.
pub open spec fn decimal(n: nat) -> Seq<char>
    decreases n,
{
    if n < 10 {
        seq![digit_char(n as int)]
    } else {
        decimal(n / 10).push(digit_char((n % 10) as int))
    }
}

fn exec_digit_char(d: u64) -> (c: char)
    requires
        d < 10,
    ensures
        c == digit_char(d as int),
{
    if d == 0 { '0' }
    else if d == 1 { '1' }
    else if d == 2 { '2' }
    else if d == 3 { '3' }
    else if d == 4 { '4' }
    else if d == 5 { '5' }
    else if d == 6 { '6' }
    else if d == 7 { '7' }
    else if d == 8 { '8' }
    else { '9' }
}

/// Appends the decimal representation of `n`.
pub fn push_decimal(out: &mut Vec<char>, n: u64)
    ensures
        final(out)@ == old(out)@ + decimal(n as nat),
    decreases n,
{
    if n >= 10 {
        push_decimal(out, n / 10);
    }
    out.push(exec_digit_char(n % 10));
    assert(final(out)@ =~= old(out)@ + decimal(n as nat)) by {
        if n >= 10 {
            assert(decimal(n as nat) == decimal((n / 10) as nat).push(digit_char((n % 10) as int)));
        }
    }
}

/// Whether some string in `v` holds exactly the characters `s`.
pub fn strings_contain(v: &Vec<String>, s: &str) -> (r: bool)
    ensures
        r == exists|i: int| 0 <= i < v@.len() && (#[trigger] v@[i])@ == s@,
{
    let mut i: usize = 0;
    while i < v.len()
        invariant
            i <= v@.len(),
            forall|k: int| 0 <= k < i ==> (#[trigger] v@[k])@ != s@,
        decreases v@.len() - i,
    {
        if crate::text::str_eq(v[i].as_str(), s) {
            return true;
        }
        i += 1;
    }
    false
}

/// The qualified names one file has emitted so far. Guarantees every
/// emitted Function/Method qualified name is unique within the file.
pub struct QnRegistry {
    emitted: Vec<String>,
}

impl QnRegistry {
    /// The set of emitted qualified names.
    pub closed spec fn names(&self) -> Set<Seq<char>> {
        Set::new(|s: Seq<char>| exists|i: int| 0 <= i < self.emitted@.len() && (#[trigger] self.emitted@[i])@ == s)
    }

    /// An empty registry.
    pub fn new() -> (r: QnRegistry)
        ensures
            r.names() == Set::<Seq<char>>::empty(),
    {
        let r = QnRegistry { emitted: Vec::new() };
        assert(r.names() =~= Set::<Seq<char>>::empty());
        r
    }

    fn record(&mut self, s: String)
        ensures
            final(self).names() == old(self).names().insert(s@),
    {
        let ghost old_names = self.names();
        self.emitted.push(s);
        assert(self.names() =~= old_names.insert(s@)) by {
            assert forall|t: Seq<char>| self.names().contains(t) <==> old_names.insert(s@).contains(t) by {
                if old_names.contains(t) {
                    let i = choose|i: int| 0 <= i < old(self).emitted@.len() && (#[trigger] old(self).emitted@[i])@ == t;
                    assert(self.emitted@[i] == old(self).emitted@[i]);
                }
                if t == s@ {
                    assert(self.emitted@[self.emitted@.len() - 1]@ == t);
                }
                if self.names().contains(t) {
                    let i = choose|i: int| 0 <= i < self.emitted@.len() && (#[trigger] self.emitted@[i])@ == t;
                    if i < old(self).emitted@.len() {
                        assert(old(self).emitted@[i] == self.emitted@[i]);
                    }
                }
            }
        }
    }

    /// Returns a file-unique qualified name: `qn` itself when unseen, else
    /// `qn@start_line`. Records whatever it returns.
    pub fn dedup_qn(&mut self, qn: String, start_line: u64) -> (r: String)
        ensures
            !old(self).names().contains(qn@) ==> r@ == qn@,
            old(self).names().contains(qn@) ==> r@ == qn@.push('@') + decimal(start_line as nat),
            final(self).names() == old(self).names().insert(r@),
    {
        if !strings_contain(&self.emitted, qn.as_str()) {
            proof {
                if self.names().contains(qn@) {
                    let i = choose|i: int| 0 <= i < self.emitted@.len() && (#[trigger] self.emitted@[i])@ == qn@;
                }
            }
            let r = qn.clone();
            self.record(qn);
            return r;
        }
        let mut v = chars_of(qn.as_str());
        v.push('@');
        push_decimal(&mut v, start_line);
        let unique = string_from_chars(&v);
        let r = unique.clone();
        self.record(unique);
        r
    }
}

/// `items` joined by `sep`.
pub open spec fn seq_join(items: Seq<Seq<char>>, sep: Seq<char>) -> Seq<char>
    decreases items.len(),
{
    if items.len() == 0 {
        Seq::empty()
    } else if items.len() == 1 {
        items[0]
    } else {
        seq_join(items.drop_last(), sep) + sep + items.last()
    }
}

/// The views of a list of strings.
pub open spec fn views(v: Seq<String>) -> Seq<Seq<char>> {
    v.map_values(|s: String| s@)
}

/// Joins strings with a one-char separator.
pub fn join_strings(items: &Vec<String>, sep: char) -> (r: Vec<char>)
    ensures
        r@ == seq_join(views(items@), seq![sep]),
{
    let mut out: Vec<char> = Vec::new();
    let mut i: usize = 0;
    while i < items.len()
        invariant
            i <= items@.len(),
            out@ == seq_join(views(items@).take(i as int), seq![sep]),
        decreases items@.len() - i,
    {
        let piece = chars_of(items[i].as_str());
        let ghost before = out@;
        if i > 0 {
            out.push(sep);
        }
        append_chars(&mut out, &piece);
        proof {
            let t = views(items@).take(i + 1);
            assert(t.drop_last() =~= views(items@).take(i as int));
            assert(t.last() == items@[i as int]@);
            if i > 0 {
                assert(out@ =~= before + seq![sep] + items@[i as int]@);
            } else {
                assert(out@ =~= items@[i as int]@);
            }
        }
        i += 1;
    }
    assert(views(items@).take(items@.len() as int) =~= views(items@));
    out
}

/// Node properties recording derived traits: none for no derives, else one
/// `implements` entry holding the derive names joined by `,`.
pub fn implements_props(derives: &Vec<String>) -> (r: Vec<(String, String)>)
    ensures
        derives@.len() == 0 ==> r@.len() == 0,
        derives@.len() > 0 ==> r@.len() == 1 && r@[0].0@ == "implements"@
            && r@[0].1@ == seq_join(views(derives@), seq![',']),
{
    if derives.len() == 0 {
        Vec::new()
    } else {
        let joined = join_strings(derives, ',');
        let mut r: Vec<(String, String)> = Vec::new();
        r.push((to_owned_string("implements"), string_from_chars(&joined)));
        r
    }
}

/// The display name of an import: its alias if it has one, else its path,
/// with `::*` appended for a glob import.
pub open spec fn spec_import_display(path: Seq<char>, alias: Seq<char>, is_glob: bool) -> Seq<char> {
    if alias.len() > 0 {
        alias
    } else if is_glob {
        path + seq![':', ':', '*']
    } else {
        path
    }
}

/// `"true"` or `"false"`.
pub open spec fn bool_text(b: bool) -> Seq<char> {
    if b { "true"@ } else { "false"@ }
}

/// The Import node and its owning `Defines` reference for one import of
/// `path` inside `scope`; none for an empty path.
pub fn import_node(
    scope: &str,
    path: &str,
    alias: &str,
    is_glob: bool,
    start_line: u64,
    end_line: u64,
    visibility: &str,
) -> (r: Option<(ExtractedNode, ExtractedRef)>)
    ensures
        path@.len() == 0 <==> r is None,
        r matches Some((n, e)) ==> {
            let d = spec_import_display(path@, alias@, is_glob);
            &&& n.label@ == "Import"@
            &&& n.name@ == d
            &&& n.qualified_name@ == spec_qual(scope@, d)
            &&& n.start_line == start_line
            &&& n.end_line == end_line
            &&& n.visibility@ == visibility@
            &&& n.properties@.len() == 3
            &&& n.properties@[0].0@ == "path"@ && n.properties@[0].1@ == path@
            &&& n.properties@[1].0@ == "alias"@ && n.properties@[1].1@ == alias@
            &&& n.properties@[2].0@ == "is_glob"@ && n.properties@[2].1@ == bool_text(is_glob)
            &&& e.kind@ == "Defines"@
            &&& e.from_qualified_name@ == scope@
            &&& e.to_qualified_name@ == spec_qual(scope@, d)
        },
{
    let p = chars_of(path);
    if p.len() == 0 {
        return None;
    }
    let a = chars_of(alias);
    let display: Vec<char> = if a.len() > 0 {
        a
    } else if is_glob {
        let mut d = p.clone();
        d.push(':');
        d.push(':');
        d.push('*');
        assert(d@ =~= path@ + seq![':', ':', '*']);
        d
    } else {
        p.clone()
    };
    let mut qv = chars_of(scope);
    qv.push(':');
    qv.push(':');
    append_chars(&mut qv, &display);
    assert(qv@ =~= spec_qual(scope@, display@));
    let mut props: Vec<(String, String)> = Vec::new();
    props.push((to_owned_string("path"), to_owned_string(path)));
    props.push((to_owned_string("alias"), to_owned_string(alias)));
    let glob_text = if is_glob { to_owned_string("true") } else { to_owned_string("false") };
    props.push((to_owned_string("is_glob"), glob_text));
    let node = ExtractedNode {
        label: to_owned_string("Import"),
        name: string_from_chars(&display),
        qualified_name: string_from_chars(&qv),
        start_line,
        end_line,
        visibility: to_owned_string(visibility),
        properties: props,
    };
    let edge = ExtractedRef {
        kind: to_owned_string("Defines"),
        from_qualified_name: to_owned_string(scope),
        to_qualified_name: string_from_chars(&qv),
    };
    Some((node, edge))
}

} // verus!
