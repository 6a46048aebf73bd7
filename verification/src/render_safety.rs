//! Which templates render with which data without a failure of the template
//! engine: a variable tag must not name a boolean, a list or fields, and a
//! `.` tag must stand in a section over strings or lists of strings.  The
//! check accepts templates of a plain form only: text, and tags of the forms
//! `{{name}}`, `{{{name}}}`, `{{&name}}`, `{{#name}}`, `{{^name}}` and
//! `{{/name}}`, where a name is `.` or dotted parts of letters, digits, `_`
//! and `-`; comments, partials, changes of delimiters and blanks in tags
//! are not accepted.
use vstd::prelude::*;

use crate::filter::TemplateData;

verus! {

/// Whether a character may stand in a name.
pub open spec fn name_char(c: char) -> bool {
    ('a' <= c <= 'z') || ('A' <= c <= 'Z') || ('0' <= c <= '9') || c == '_' || c == '-' || c == '.'
}

fn is_name_char(c: char) -> (r: bool)
    ensures
        r == name_char(c),
{
    ('a' <= c && c <= 'z') || ('A' <= c && c <= 'Z') || ('0' <= c && c <= '9') || c == '_' || c == '-' || c == '.'
}

/// The end of the run of name characters from `j` on.
pub open spec fn name_end(t: Seq<char>, j: int) -> int
    decreases t.len() - j,
{
    if 0 <= j < t.len() && name_char(t[j]) {
        name_end(t, j + 1)
    } else {
        j
    }
}

/// The run of name characters from `j` on ends within the text.
pub proof fn lemma_name_end(t: Seq<char>, j: int)
    requires
        0 <= j,
    ensures
        j <= name_end(t, j),
        j <= t.len() ==> name_end(t, j) <= t.len(),
        forall|k: int| j <= k < name_end(t, j) ==> name_char(#[trigger] t[k]),
    decreases t.len() - j,
{
    if 0 <= j < t.len() && name_char(t[j]) {
        lemma_name_end(t, j + 1);
    }
}

/// Whether a name is `.`, or parts of name characters joined by single dots.
pub open spec fn valid_name(n: Seq<char>) -> bool {
    &&& n.len() > 0
    &&& (n =~= seq!['.'] || (n[0] != '.' && n.last() != '.' && forall|k: int|
        0 <= k < n.len() - 1 ==> !(#[trigger] n[k] == '.' && n[k + 1] == '.')))
}

/// The part of a name after its last dot.
pub open spec fn last_part(n: Seq<char>) -> Seq<char>
    decreases n.len(),
{
    if n.len() == 0 || n.last() == '.' {
        Seq::empty()
    } else {
        last_part(n.drop_last()).push(n.last())
    }
}

/// Whether a value may be written by a variable tag: a string or nothing.
pub open spec fn writable(v: TemplateData) -> bool {
    v is Str || v is Null
}

/// Whether a section over a value leaves a string, or nothing, for a `.`
/// tag in it: a string, nothing, `false`, or a list of strings and nothings.
pub open spec fn dot_safe(v: TemplateData) -> bool {
    match v {
        TemplateData::Str(_) => true,
        TemplateData::Null => true,
        TemplateData::Bool(b) => !b,
        TemplateData::List(items) => forall|i: int| 0 <= i < items@.len() ==> writable(#[trigger] items@[i]),
        TemplateData::Fields(_) => false,
    }
}

/// Whether every value of the key, at any depth of the data, is writable
/// (`var`) or leaves something writable for a `.` tag (`!var`).
pub open spec fn key_safe(d: TemplateData, k: Seq<char>, var: bool) -> bool
    decreases d,
{
    match d {
        TemplateData::List(items) => forall|i: int| 0 <= i < items@.len() ==> key_safe(#[trigger] items@[i], k, var),
        TemplateData::Fields(f) => forall|i: int|
            0 <= i < f@.len() ==> ((#[trigger] f@[i]).0@ == k ==> if var {
                writable(f@[i].1)
            } else {
                dot_safe(f@[i].1)
            }) && key_safe(f@[i].1, k, var),
        _ => true,
    }
}

fn same_text(s: &str, k: &Vec<char>) -> (r: bool)
    ensures
        r == (s@ == k@),
{
    let n = s.unicode_len();
    if n != k.len() {
        return false;
    }
    let mut i: usize = 0;
    while i < n
        invariant
            n == s@.len(),
            n == k@.len(),
            i <= n,
            forall|j: int| 0 <= j < i ==> s@[j] == k@[j],
        decreases n - i,
    {
        if s.get_char(i) != k[i] {
            return false;
        }
        i = i + 1;
    }
    assert(s@ =~= k@);
    true
}

fn is_writable(v: &TemplateData) -> (r: bool)
    ensures
        r == writable(*v),
{
    match v {
        TemplateData::Str(_) => true,
        TemplateData::Null => true,
        _ => false,
    }
}

#[verifier::loop_isolation(false)]
fn is_dot_safe(v: &TemplateData) -> (r: bool)
    ensures
        r == dot_safe(*v),
{
    match v {
        TemplateData::Str(_) => true,
        TemplateData::Null => true,
        TemplateData::Bool(b) => !*b,
        TemplateData::List(items) => {
            let mut i: usize = 0;
            while i < items.len()
                invariant
                    i <= items@.len(),
                    forall|j: int| 0 <= j < i ==> writable(#[trigger] items@[j]),
                decreases items@.len() - i,
            {
                if !is_writable(&items[i]) {
                    assert(!writable(items@[i as int]));
                    return false;
                }
                i = i + 1;
            }
            true
        },
        TemplateData::Fields(_) => false,
    }
}

#[verifier::loop_isolation(false)]
fn is_key_safe(d: &TemplateData, k: &Vec<char>, var: bool) -> (r: bool)
    ensures
        r == key_safe(*d, k@, var),
    decreases d,
{
    match d {
        TemplateData::List(items) => {
            let mut i: usize = 0;
            while i < items.len()
                invariant
                    i <= items@.len(),
                    forall|j: int| 0 <= j < i ==> key_safe(#[trigger] items@[j], k@, var),
                decreases items@.len() - i,
            {
                proof {
                    assert(decreases_to!(*d => items@[i as int]));
                }
                if !is_key_safe(&items[i], k, var) {
                    assert(!key_safe(items@[i as int], k@, var));
                    return false;
                }
                i = i + 1;
            }
            true
        },
        TemplateData::Fields(f) => {
            let mut i: usize = 0;
            while i < f.len()
                invariant
                    i <= f@.len(),
                    forall|j: int|
                        0 <= j < i ==> ((#[trigger] f@[j]).0@ == k@ ==> if var {
                            writable(f@[j].1)
                        } else {
                            dot_safe(f@[j].1)
                        }) && key_safe(f@[j].1, k@, var),
                decreases f@.len() - i,
            {
                let entry = &f[i];
                if same_text(entry.0.as_str(), k) {
                    let ok = if var {
                        is_writable(&entry.1)
                    } else {
                        is_dot_safe(&entry.1)
                    };
                    if !ok {
                        assert(f@[i as int].0@ == k@);
                        return false;
                    }
                }
                proof {
                    assert(decreases_to!(*d => f@[i as int].1));
                }
                if !is_key_safe(&entry.1, k, var) {
                    assert(!key_safe(f@[i as int].1, k@, var));
                    return false;
                }
                i = i + 1;
            }
            true
        },
        _ => true,
    }
}

/// The innermost open section that pushes its value (one that is not
/// inverted), if any.
pub open spec fn pushing_section(stack: Seq<(Seq<char>, bool)>) -> Option<Seq<char>>
    decreases stack.len(),
{
    if stack.len() == 0 {
        None
    } else if !stack.last().1 {
        Some(stack.last().0)
    } else {
        pushing_section(stack.drop_last())
    }
}

/// Whether a variable tag of the name, inside the open sections, finds a
/// string or nothing.
pub open spec fn var_safe(n: Seq<char>, stack: Seq<(Seq<char>, bool)>, d: TemplateData) -> bool {
    if n =~= seq!['.'] {
        match pushing_section(stack) {
            Some(sec) => key_safe(d, last_part(sec), false),
            None => false,
        }
    } else {
        key_safe(d, last_part(n), true)
    }
}

/// Whether the template, from position `i` on, inside the open sections
/// (name, inverted), is of the plain form and its variable tags find only
/// strings or nothing in the data.
pub open spec fn scan_safe(t: Seq<char>, i: int, stack: Seq<(Seq<char>, bool)>, d: TemplateData) -> bool
    decreases t.len() - i,
{
    if i < 0 || i >= t.len() {
        true
    } else if i + 1 < t.len() && t[i] == '{' && t[i + 1] == '{' {
        if i + 2 < t.len() && t[i + 2] == '{' {
            let e = name_end(t, i + 3);
            proof {
                lemma_name_end(t, i + 3);
            }
            let n = t.subrange(i + 3, e);
            if valid_name(n) && e + 3 <= t.len() && t[e] == '}' && t[e + 1] == '}' && t[e + 2] == '}' && var_safe(
                n,
                stack,
                d,
            ) {
                scan_safe(t, e + 3, stack, d)
            } else {
                false
            }
        } else {
            let c = if i + 2 < t.len() {
                t[i + 2]
            } else {
                ' '
            };
            let st = if c == '#' || c == '^' || c == '/' || c == '&' {
                i + 3
            } else {
                i + 2
            };
            let e = name_end(t, st);
            proof {
                lemma_name_end(t, st);
            }
            let n = t.subrange(st, e);
            if !(valid_name(n) && e + 2 <= t.len() && t[e] == '}' && t[e + 1] == '}') {
                false
            } else if c == '#' || c == '^' {
                if n =~= seq!['.'] {
                    false
                } else {
                    scan_safe(t, e + 2, stack.push((n, c == '^')), d)
                }
            } else if c == '/' {
                if stack.len() > 0 && stack.last().0 == n {
                    scan_safe(t, e + 2, stack.drop_last(), d)
                } else {
                    false
                }
            } else if var_safe(n, stack, d) {
                scan_safe(t, e + 2, stack, d)
            } else {
                false
            }
        }
    } else {
        scan_safe(t, i + 1, stack, d)
    }
}

/// Whether the template is of the plain form and renders with the data
/// without a variable tag finding a boolean, a list or fields.
pub open spec fn render_safe(t: Seq<char>, d: TemplateData) -> bool {
    scan_safe(t, 0, Seq::empty(), d)
}

fn chars_of(s: &str) -> (r: Vec<char>)
    ensures
        r@ == s@,
{
    let n = s.unicode_len();
    let mut r: Vec<char> = Vec::new();
    let mut i: usize = 0;
    while i < n
        invariant
            n == s@.len(),
            i <= n,
            r@ =~= s@.subrange(0, i as int),
        decreases n - i,
    {
        r.push(s.get_char(i));
        i = i + 1;
    }
    r
}

fn scan_name_end(t: &Vec<char>, j: usize) -> (e: usize)
    requires
        j <= t@.len(),
    ensures
        e == name_end(t@, j as int),
        j <= e <= t@.len(),
{
    proof {
        lemma_name_end(t@, j as int);
    }
    let mut e = j;
    while e < t.len() && is_name_char(t[e])
        invariant
            j <= e <= t@.len(),
            name_end(t@, e as int) == name_end(t@, j as int),
        decreases t@.len() - e,
    {
        e = e + 1;
    }
    e
}

fn copy_range(t: &Vec<char>, a: usize, b: usize) -> (r: Vec<char>)
    requires
        a <= b <= t@.len(),
    ensures
        r@ == t@.subrange(a as int, b as int),
{
    let mut r: Vec<char> = Vec::new();
    let mut k = a;
    while k < b
        invariant
            a <= k <= b,
            b <= t@.len(),
            r@ =~= t@.subrange(a as int, k as int),
        decreases b - k,
    {
        r.push(t[k]);
        k = k + 1;
    }
    r
}

fn is_dot(n: &Vec<char>) -> (r: bool)
    ensures
        r == (n@ =~= seq!['.']),
{
    n.len() == 1 && n[0] == '.'
}

fn is_valid_name(n: &Vec<char>) -> (r: bool)
    ensures
        r == valid_name(n@),
{
    if n.len() == 0 {
        return false;
    }
    if is_dot(n) {
        return true;
    }
    if n[0] == '.' || n[n.len() - 1] == '.' {
        return false;
    }
    let mut k: usize = 0;
    while k < n.len() - 1
        invariant
            n@.len() > 0,
            k + 1 <= n@.len(),
            forall|m: int| 0 <= m < k ==> !(#[trigger] n@[m] == '.' && n@[m + 1] == '.'),
        decreases n@.len() - k,
    {
        if n[k] == '.' && n[k + 1] == '.' {
            assert(n@[k as int] == '.' && n@[k + 1] == '.');
            return false;
        }
        k = k + 1;
    }
    true
}

proof fn lemma_last_part(n: Seq<char>, j: int)
    requires
        0 <= j <= n.len(),
        forall|k: int| j <= k < n.len() ==> n[k] != '.',
        j == 0 || n[j - 1] == '.',
    ensures
        last_part(n) == n.subrange(j, n.len() as int),
    decreases n.len(),
{
    if n.len() == j {
        assert(n.subrange(j, n.len() as int) =~= Seq::<char>::empty());
    } else {
        lemma_last_part(n.drop_last(), j);
        assert(n.subrange(j, n.len() as int) =~= n.drop_last().subrange(j, n.len() - 1).push(n.last()));
    }
}

fn last_part_of(n: &Vec<char>) -> (r: Vec<char>)
    ensures
        r@ == last_part(n@),
{
    let mut j = n.len();
    while j > 0 && n[j - 1] != '.'
        invariant
            j <= n@.len(),
            forall|k: int| j <= k < n@.len() ==> n@[k] != '.',
        decreases j,
    {
        j = j - 1;
    }
    proof {
        lemma_last_part(n@, j as int);
    }
    copy_range(n, j, n.len())
}

/// The view of a stack of open sections.
pub open spec fn stack_view(stack: Seq<(Vec<char>, bool)>) -> Seq<(Seq<char>, bool)> {
    stack.map_values(|p: (Vec<char>, bool)| (p.0@, p.1))
}

fn find_pushing(stack: &Vec<(Vec<char>, bool)>) -> (r: Option<Vec<char>>)
    ensures
        match (r, pushing_section(stack_view(stack@))) {
            (Some(a), Some(b)) => a@ == b,
            (None, None) => true,
            _ => false,
        },
{
    let mut j = stack.len();
    assert(stack@.subrange(0, j as int) =~= stack@);
    while j > 0
        invariant
            j <= stack@.len(),
            pushing_section(stack_view(stack@)) == pushing_section(stack_view(stack@.subrange(0, j as int))),
        decreases j,
    {
        let ghost sv = stack_view(stack@.subrange(0, j as int));
        assert(sv.drop_last() =~= stack_view(stack@.subrange(0, j - 1)));
        if !stack[j - 1].1 {
            return Some(copy_range(&stack[j - 1].0, 0, stack[j - 1].0.len()));
        }
        j = j - 1;
    }
    None
}

fn is_var_safe(n: &Vec<char>, stack: &Vec<(Vec<char>, bool)>, d: &TemplateData) -> (r: bool)
    ensures
        r == var_safe(n@, stack_view(stack@), *d),
{
    if is_dot(n) {
        match find_pushing(stack) {
            Some(sec) => {
                let k = last_part_of(&sec);
                is_key_safe(d, &k, false)
            },
            None => false,
        }
    } else {
        let k = last_part_of(n);
        is_key_safe(d, &k, true)
    }
}

fn same_chars(a: &Vec<char>, b: &Vec<char>) -> (r: bool)
    ensures
        r == (a@ == b@),
{
    if a.len() != b.len() {
        return false;
    }
    let mut k: usize = 0;
    while k < a.len()
        invariant
            a@.len() == b@.len(),
            k <= a@.len(),
            forall|m: int| 0 <= m < k ==> a@[m] == b@[m],
        decreases a@.len() - k,
    {
        if a[k] != b[k] {
            return false;
        }
        k = k + 1;
    }
    assert(a@ =~= b@);
    true
}

/// Whether the template is of the plain form and renders with the data
/// without a variable tag finding a boolean, a list or fields, as
/// `render_safe` says.
pub fn is_render_safe(template: &str, data: &TemplateData) -> (r: bool)
    ensures
        r == render_safe(template@, *data),
{
    let t = chars_of(template);
    let mut stack: Vec<(Vec<char>, bool)> = Vec::new();
    let mut i: usize = 0;
    proof {
        assert(stack_view(stack@) =~= Seq::<(Seq<char>, bool)>::empty());
    }
    while i < t.len()
        invariant
            i <= t@.len(),
            t@ == template@,
            render_safe(template@, *data) == scan_safe(t@, i as int, stack_view(stack@), *data),
        decreases t@.len() - i,
    {
        let ghost sv = stack_view(stack@);
        if i + 1 < t.len() && t[i] == '{' && t[i + 1] == '{' {
            if i + 2 < t.len() && t[i + 2] == '{' {
                let e = scan_name_end(&t, i + 3);
                let n = copy_range(&t, i + 3, e);
                if !(is_valid_name(&n) && t.len() - e >= 3 && t[e] == '}' && t[e + 1] == '}' && t[e + 2] == '}'
                    && is_var_safe(&n, &stack, data)) {
                    return false;
                }
                i = e + 3;
            } else {
                let c = if i + 2 < t.len() {
                    t[i + 2]
                } else {
                    ' '
                };
                let st = if c == '#' || c == '^' || c == '/' || c == '&' {
                    i + 3
                } else {
                    i + 2
                };
                let e = scan_name_end(&t, st);
                let n = copy_range(&t, st, e);
                if !(is_valid_name(&n) && t.len() - e >= 2 && t[e] == '}' && t[e + 1] == '}') {
                    return false;
                }
                if c == '#' || c == '^' {
                    if is_dot(&n) {
                        return false;
                    }
                    let ghost nv = n@;
                    stack.push((n, c == '^'));
                    proof {
                        assert(stack_view(stack@) =~= sv.push((nv, c == '^')));
                    }
                } else if c == '/' {
                    if stack.len() > 0 && same_chars(&stack[stack.len() - 1].0, &n) {
                        stack.pop();
                        proof {
                            assert(stack_view(stack@) =~= sv.drop_last());
                        }
                    } else {
                        return false;
                    }
                } else {
                    if !is_var_safe(&n, &stack, data) {
                        return false;
                    }
                }
                i = e + 2;
            }
        } else {
            i = i + 1;
        }
    }
    true
}

} // verus!
