//! Keybindings: parsing `bindsym` lines out of a sway config, sorting
//! them into categories, naming their commands, and producing the managed
//! `shortcuts.conf` and the edits made to the user's main config.
use vstd::prelude::*;
use crate::text::{
    all_ascii, ascii_lower,
    chars_eq, chars_of, contains, contains_str, eq_str, lowercase, starts_with_str, to_lowercase,
    ends_with, extend_str, join, join_lines, trim_end, trim_end_vec, last_word, last_word_exec, lines_of, starts_with_exec, extend_chars, lines, slice_chars, starts_with, string_of, trim,
    trim_end_char, trim_end_char_vec, trim_vec,
};

verus! {

// ── Data model ──────────────────────────────────────────────

#[derive(Debug, Clone)]
pub struct Binding {
    pub keys: String,
    pub command: String,
}

#[derive(Debug, Clone)]
pub struct BindingGroup {
    pub name: String,
    pub bindings: Vec<Binding>,
}

impl View for Binding {
    type V = (Seq<char>, Seq<char>);

    open spec fn view(&self) -> (Seq<char>, Seq<char>) {
        (self.keys@, self.command@)
    }
}

impl View for BindingGroup {
    type V = (Seq<char>, Seq<(Seq<char>, Seq<char>)>);

    open spec fn view(&self) -> (Seq<char>, Seq<(Seq<char>, Seq<char>)>) {
        (self.name@, bindings_view(self.bindings@))
    }
}

pub open spec fn bindings_view(bs: Seq<Binding>) -> Seq<(Seq<char>, Seq<char>)> {
    bs.map_values(|b: Binding| b@)
}

pub open spec fn groups_view(gs: Seq<BindingGroup>) -> Seq<
    (Seq<char>, Seq<(Seq<char>, Seq<char>)>),
> {
    gs.map_values(|g: BindingGroup| g@)
}

// ── Sway config parser: specification ──────────────────────

/// The first position of a space or a tab in `s`.
pub open spec fn find_blank(s: Seq<char>) -> Option<int>
    decreases s.len(),
{
    if s.len() == 0 {
        None
    } else if s[0] == ' ' || s[0] == '\t' {
        Some(0)
    } else {
        match find_blank(s.drop_first()) {
            Some(i) => Some(i + 1),
            None => None,
        }
    }
}

/// A binding's text split into keys and command at its first blank.
pub open spec fn split_binding(full: Seq<char>) -> Option<(Seq<char>, Seq<char>)> {
    let f = trim(full);
    match find_blank(f) {
        Some(p) => Some((trim(f.take(p)), trim(f.skip(p)))),
        None => None,
    }
}

/// A line continued by a trailing backslash, with the backslashes and
/// surrounding whitespace removed.
pub open spec fn unbackslash(s: Seq<char>) -> Seq<char> {
    trim(trim_end_char(s, '\\'))
}

/// Continuation lines from `i` on, appended to `full`: the text and the
/// index of the first line after the binding.
pub open spec fn join_continuation(ls: Seq<Seq<char>>, i: int, full: Seq<char>) -> (
    Seq<char>,
    int,
)
    decreases ls.len() - i,
{
    if i < 0 || i >= ls.len() {
        (full, i)
    } else {
        let c = trim(ls[i]);
        if ends_with(c, seq!['\\']) {
            join_continuation(ls, i + 1, full + seq![' '] + unbackslash(c))
        } else {
            (full + seq![' '] + c, i + 1)
        }
    }
}

/// The text after `bindsym ` of line `i`, joined with its continuation
/// lines, and the index of the line after it.
pub open spec fn binding_text(ls: Seq<Seq<char>>, i: int) -> (Seq<char>, int) {
    let first = trim(trim(ls[i]).skip("bindsym "@.len() as int));
    if ends_with(first, seq!['\\']) {
        join_continuation(ls, i + 1, unbackslash(first))
    } else {
        (first, i + 1)
    }
}

pub proof fn lemma_join_continuation_advances(ls: Seq<Seq<char>>, i: int, full: Seq<char>)
    requires
        0 <= i,
    ensures
        join_continuation(ls, i, full).1 >= i,
        join_continuation(ls, i, full).1 <= ls.len() || i > ls.len(),
    decreases ls.len() - i,
{
    if i < ls.len() {
        let c = trim(ls[i]);
        if ends_with(c, seq!['\\']) {
            lemma_join_continuation_advances(ls, i + 1, full + seq![' '] + unbackslash(c));
        }
    }
}

/// The bindings of the lines from `i` on, as `(keys, command)` pairs.
pub open spec fn parse_lines(ls: Seq<Seq<char>>, i: int) -> Seq<(Seq<char>, Seq<char>)>
    decreases ls.len() - i,
{
    if i < 0 || i >= ls.len() {
        seq![]
    } else if starts_with(trim(ls[i]), "bindsym "@) {
        let (full, j) = binding_text(ls, i);
        proof {
            let first = trim(trim(ls[i]).skip("bindsym "@.len() as int));
            lemma_join_continuation_advances(ls, i + 1, unbackslash(first));
        }
        let here: Seq<(Seq<char>, Seq<char>)> = match split_binding(full) {
            Some(b) => seq![b],
            None => seq![],
        };
        here + parse_lines(ls, j)
    } else {
        parse_lines(ls, i + 1)
    }
}

/// The `bindsym` bindings of a sway config text.
pub open spec fn sway_bindings(content: Seq<char>) -> Seq<(Seq<char>, Seq<char>)> {
    parse_lines(lines(content), 0)
}

// ── Sway config parser ─────────────────────────────────────

proof fn lemma_find_blank_some(s: Seq<char>, k: int)
    requires
        0 <= k < s.len(),
        s[k] == ' ' || s[k] == '\t',
        forall|i: int| 0 <= i < k ==> s[i] != ' ' && s[i] != '\t',
    ensures
        find_blank(s) == Some(k),
    decreases k,
{
    if k > 0 {
        lemma_find_blank_some(s.drop_first(), k - 1);
    }
}

proof fn lemma_find_blank_none(s: Seq<char>)
    requires
        forall|i: int| 0 <= i < s.len() ==> s[i] != ' ' && s[i] != '\t',
    ensures
        find_blank(s) is None,
    decreases s.len(),
{
    if s.len() > 0 {
        lemma_find_blank_none(s.drop_first());
    }
}

/// Splits a binding's text into keys and command.
fn split_binding_exec(full: &Vec<char>) -> (r: Option<Binding>)
    ensures
        match r {
            Some(b) => split_binding(full@) == Some(b@),
            None => split_binding(full@) is None,
        },
{
    let f = trim_vec(full);
    let mut p: usize = 0;
    while p < f.len()
        invariant
            p <= f.len(),
            forall|i: int| 0 <= i < p ==> f@[i] != ' ' && f@[i] != '\t',
        decreases f.len() - p,
    {
        if f[p] == ' ' || f[p] == '\t' {
            proof {
                lemma_find_blank_some(f@, p as int);
            }
            let k = slice_chars(&f, 0, p);
            let c = slice_chars(&f, p, f.len());
            let keys = trim_vec(&k);
            let command = trim_vec(&c);
            assert(k@ == f@.take(p as int));
            assert(c@ == f@.skip(p as int));
            let b = Binding { keys: string_of(&keys), command: string_of(&command) };
            assert(b@ == (trim(f@.take(p as int)), trim(f@.skip(p as int))));
            assert(f@ == trim(full@));
            assert(find_blank(trim(full@)) == Some(p as int));
            assert(split_binding(full@) == Some((trim(f@.take(p as int)), trim(f@.skip(p as int)))));
            return Some(b);
        }
        p += 1;
    }
    proof {
        lemma_find_blank_none(f@);
    }
    None
}

/// Joins continuation lines from `i` on onto `full`.
fn join_continuation_exec(ls: &Vec<Vec<char>>, i: usize, full: Vec<char>) -> (r: (
    Vec<char>,
    usize,
))
    requires
        i <= ls.len(),
    ensures
        (r.0@, r.1 as int) == join_continuation(ls@.map_values(|l: Vec<char>| l@), i as int, full@),
{
    let ghost lv = ls@.map_values(|l: Vec<char>| l@);
    let ghost target = join_continuation(lv, i as int, full@);
    let mut i = i;
    let mut full = full;
    while i < ls.len()
        invariant
            i <= ls.len(),
            lv == ls@.map_values(|l: Vec<char>| l@),
            join_continuation(lv, i as int, full@) == target,
        decreases ls.len() - i,
    {
        let c = trim_vec(&ls[i]);
        assert(lv[i as int] == ls@[i as int]@);
        if c.len() > 0 && c[c.len() - 1] == '\\' {
            assert(ends_with(c@, seq!['\\'])) by {
                assert(c@.skip(c.len() - 1) == seq!['\\']);
            }
            let ghost before = full@;
            full.push(' ');
            let u = trim_end_char_vec(&c, '\\');
            let u = trim_vec(&u);
            extend_chars(&mut full, &u);
            assert(full@ == before + seq![' '] + unbackslash(c@));
            i += 1;
        } else {
            assert(!ends_with(c@, seq!['\\'])) by {
                if c.len() > 0 {
                    assert(c@.skip(c.len() - 1)[0] == c@[c.len() - 1]);
                }
            }
            let ghost before = full@;
            full.push(' ');
            extend_chars(&mut full, &c);
            assert(full@ == before + seq![' '] + c@);
            return (full, i + 1);
        }
    }
    (full, i)
}

/// Whether `v` ends with a backslash.
fn ends_with_backslash(v: &Vec<char>) -> (r: bool)
    ensures
        r == ends_with(v@, seq!['\\']),
{
    if v.len() > 0 && v[v.len() - 1] == '\\' {
        assert(v@.skip(v.len() - 1) == seq!['\\']);
        true
    } else {
        assert(!ends_with(v@, seq!['\\'])) by {
            if v.len() > 0 {
                assert(v@.skip(v.len() - 1)[0] == v@[v.len() - 1]);
            }
        }
        false
    }
}

fn unbackslash_exec(v: &Vec<char>) -> (r: Vec<char>)
    ensures
        r@ == unbackslash(v@),
{
    let u = trim_end_char_vec(v, '\\');
    trim_vec(&u)
}

/// Every `bindsym` in a sway config text, with its continuation lines
/// joined, split into keys and command at the first blank.
pub fn parse_sway_bindings(content: &str) -> (r: Vec<Binding>)
    ensures
        bindings_view(r@) == sway_bindings(content@),
{
    let cv = chars_of(content);
    let ls = lines_of(&cv);
    let ghost lv = ls@.map_values(|l: Vec<char>| l@);
    assert(lv =~= lines(content@));
    let prefix = chars_of("bindsym ");
    let mut bindings: Vec<Binding> = Vec::new();
    let mut i: usize = 0;
    assert(bindings_view(bindings@) + parse_lines(lv, 0) == parse_lines(lv, 0));
    while i < ls.len()
        invariant
            i <= ls.len(),
            lv == ls@.map_values(|l: Vec<char>| l@),
            prefix@ == "bindsym "@,
            parse_lines(lv, 0) == bindings_view(bindings@) + parse_lines(lv, i as int),
        decreases ls.len() - i,
    {
        let t = trim_vec(&ls[i]);
        assert(t@ == trim(lv[i as int]));
        if starts_with_exec(&t, &prefix) {
            let rest = slice_chars(&t, prefix.len(), t.len());
            let first = trim_vec(&rest);
            assert(rest@ == t@.skip("bindsym "@.len() as int));
            let (full, j) = if ends_with_backslash(&first) {
                let u = unbackslash_exec(&first);
                join_continuation_exec(&ls, i + 1, u)
            } else {
                (first, i + 1)
            };
            assert((full@, j as int) == binding_text(lv, i as int));
            proof {
                lemma_join_continuation_advances(lv, i + 1, unbackslash(first@));
            }
            let ghost old_b = bindings@;
            match split_binding_exec(&full) {
                Some(b) => {
                    bindings.push(b);
                    assert(bindings_view(bindings@) == bindings_view(old_b).push(b@));
                },
                None => {},
            }
            i = j;
        } else {
            i += 1;
        }
    }
    bindings
}

// ── Categorization ──────────────────────────────────────────

/// The category of a (lowercased) command.
pub open spec fn category_of(cmd: Seq<char>) -> Seq<char> {
    if contains(cmd, "oblong snap"@) {
        "Window Snapping"@
    } else if contains(cmd, "oblong switch"@) {
        "Window Switching"@
    } else if contains(cmd, "floating enable"@) && (contains(cmd, "resize set"@) || contains(
        cmd,
        "move position"@,
    )) {
        "Window Snapping"@
    } else if contains(cmd, "floating disable"@) || contains(cmd, "floating toggle"@) {
        "Window Snapping"@
    } else if contains(cmd, "move container to output"@) {
        "Displays"@
    } else if starts_with(cmd, "focus "@) {
        "Focus"@
    } else if starts_with(cmd, "move "@) && !contains(cmd, "workspace"@) && !contains(
        cmd,
        "output"@,
    ) {
        "Move Window"@
    } else if contains(cmd, "workspace"@) {
        "Workspaces"@
    } else if starts_with(cmd, "layout "@) || starts_with(cmd, "fullscreen"@) {
        "Layout"@
    } else if starts_with(cmd, "exec "@) {
        "Apps & Commands"@
    } else if cmd == "kill"@ {
        "Apps & Commands"@
    } else {
        "Other"@
    }
}

/// The category of a command that is already lowercased.
pub fn categorize_lowered(cmd: &str) -> (r: &'static str)
    ensures
        r@ == category_of(cmd@),
{
    let c = chars_of(cmd);
    if contains_str(&c, "oblong snap") {
        "Window Snapping"
    } else if contains_str(&c, "oblong switch") {
        "Window Switching"
    } else if contains_str(&c, "floating enable") && (contains_str(&c, "resize set")
        || contains_str(&c, "move position")) {
        "Window Snapping"
    } else if contains_str(&c, "floating disable") || contains_str(&c, "floating toggle") {
        "Window Snapping"
    } else if contains_str(&c, "move container to output") {
        "Displays"
    } else if starts_with_str(&c, "focus ") {
        "Focus"
    } else if starts_with_str(&c, "move ") && !contains_str(&c, "workspace") && !contains_str(
        &c,
        "output",
    ) {
        "Move Window"
    } else if contains_str(&c, "workspace") {
        "Workspaces"
    } else if starts_with_str(&c, "layout ") || starts_with_str(&c, "fullscreen") {
        "Layout"
    } else if starts_with_str(&c, "exec ") {
        "Apps & Commands"
    } else if eq_str(&c, "kill") {
        "Apps & Commands"
    } else {
        "Other"
    }
}

/// The category that a binding is listed under: that of its command,
/// lowercased.
pub fn categorize(b: &Binding) -> (r: &'static str)
    ensures
        r@ == category_of(lowercase(b.command@)),
        all_ascii(b.command@) ==> r@ == category_of(ascii_lower(b.command@)),
{
    let low = to_lowercase(b.command.as_str());
    categorize_lowered(low.as_str())
}

// ── Grouping ────────────────────────────────────────────────

/// The categories, in the order in which groups are listed.
pub open spec fn category_order() -> Seq<Seq<char>> {
    seq![
        "Window Snapping"@,
        "Window Switching"@,
        "Displays"@,
        "Focus"@,
        "Move Window"@,
        "Workspaces"@,
        "Layout"@,
        "Apps & Commands"@,
        "Other"@,
    ]
}

/// The bindings of `bs` whose category is `name`, in their order.
pub open spec fn in_category(bs: Seq<(Seq<char>, Seq<char>)>, name: Seq<char>) -> Seq<
    (Seq<char>, Seq<char>),
> {
    bs.filter(|b: (Seq<char>, Seq<char>)| category_of(lowercase(b.1)) == name)
}

/// One group per category, in `category_order`, empty groups left out.
pub open spec fn grouped(bs: Seq<(Seq<char>, Seq<char>)>) -> Seq<
    (Seq<char>, Seq<(Seq<char>, Seq<char>)>),
> {
    category_order().map_values(|n: Seq<char>| (n, in_category(bs, n))).filter(
        |g: (Seq<char>, Seq<(Seq<char>, Seq<char>)>)| g.1.len() > 0,
    )
}

/// The categories of commands, by the text they hold (already
/// lowercased): anything running `oblong snap`, the inline floating
/// resize and move commands, and turning floating off or toggling it are
/// window snapping; `oblong switch` is window switching; moving a
/// container to another output is a display command; `kill` closes the
/// window, an application command.
pub proof fn lemma_command_categories(cmd: Seq<char>)
    ensures
        contains(cmd, "oblong snap"@) ==> category_of(cmd) == "Window Snapping"@,
        !contains(cmd, "oblong snap"@) && contains(cmd, "oblong switch"@) ==> category_of(cmd)
            == "Window Switching"@,
        !contains(cmd, "oblong switch"@) && contains(cmd, "floating disable"@) ==> category_of(cmd)
            == "Window Snapping"@,
        !contains(cmd, "oblong switch"@) && contains(cmd, "floating toggle"@) ==> category_of(cmd)
            == "Window Snapping"@,
        !contains(cmd, "oblong switch"@) && contains(cmd, "floating enable"@) && (contains(
            cmd,
            "resize set"@,
        ) || contains(cmd, "move position"@)) ==> category_of(cmd) == "Window Snapping"@,
        !contains(cmd, "oblong snap"@) && !contains(cmd, "oblong switch"@) && !contains(
            cmd,
            "floating"@,
        ) && contains(cmd, "move container to output"@) ==> category_of(cmd) == "Displays"@,
        category_of("kill"@) == "Apps & Commands"@,
{
    reveal_strlit("kill");
    reveal_strlit("oblong snap");
    reveal_strlit("oblong switch");
    reveal_strlit("floating enable");
    reveal_strlit("floating disable");
    reveal_strlit("floating toggle");
    reveal_strlit("floating");
    reveal_strlit("focus ");
    reveal_strlit("move ");
    reveal_strlit("workspace");
    reveal_strlit("layout ");
    reveal_strlit("fullscreen");
    reveal_strlit("exec ");
    reveal_strlit("move container to output");
    if !contains(cmd, "floating"@) {
        if contains(cmd, "floating enable"@) {
            let i = choose|i: int| crate::text::occurs_at(cmd, "floating enable"@, i);
            assert("floating enable"@.subrange(0, 8) =~= "floating"@);
            assert(cmd.subrange(i, i + 8) =~= cmd.subrange(i, i + 15).subrange(0, 8));
            assert(crate::text::occurs_at(cmd, "floating"@, i));
        }
        if contains(cmd, "floating disable"@) {
            let i = choose|i: int| crate::text::occurs_at(cmd, "floating disable"@, i);
            assert("floating disable"@.subrange(0, 8) =~= "floating"@);
            assert(cmd.subrange(i, i + 8) =~= cmd.subrange(i, i + 16).subrange(0, 8));
            assert(crate::text::occurs_at(cmd, "floating"@, i));
        }
        if contains(cmd, "floating toggle"@) {
            let i = choose|i: int| crate::text::occurs_at(cmd, "floating toggle"@, i);
            assert("floating toggle"@.subrange(0, 8) =~= "floating"@);
            assert(cmd.subrange(i, i + 8) =~= cmd.subrange(i, i + 15).subrange(0, 8));
            assert(crate::text::occurs_at(cmd, "floating"@, i));
        }
    }
    let k = "kill"@;
    assert(!contains(k, "oblong snap"@));
    assert(!contains(k, "oblong switch"@));
    assert(!contains(k, "floating enable"@));
    assert(!contains(k, "floating disable"@));
    assert(!contains(k, "floating toggle"@));
    assert(!contains(k, "move container to output"@));
    assert(!contains(k, "workspace"@));
}

/// Every command falls into one of the listed categories.
pub proof fn lemma_category_listed(cmd: Seq<char>)
    ensures
        exists|k: int| 0 <= k < 9 && category_order()[k] == category_of(cmd),
{
    let c = category_of(cmd);
    let o = category_order();
    if c == o[0] {
    } else if c == o[1] {
    } else if c == o[2] {
    } else if c == o[3] {
    } else if c == o[4] {
    } else if c == o[5] {
    } else if c == o[6] {
    } else if c == o[7] {
    } else {
        assert(c == o[8]);
    }
}

/// Grouping loses no binding: each lands in the group named by its
/// category.
pub proof fn lemma_grouping_keeps_bindings(bs: Seq<(Seq<char>, Seq<char>)>, i: int)
    requires
        0 <= i < bs.len(),
    ensures
        exists|g: int|
            0 <= g < grouped(bs).len() && (#[trigger] grouped(bs)[g]).0 == category_of(
                lowercase(bs[i].1),
            ) && grouped(bs)[g].1.contains(bs[i]),
{
    let c = category_of(lowercase(bs[i].1));
    lemma_category_listed(lowercase(bs[i].1));
    let k = choose|k: int| 0 <= k < 9 && category_order()[k] == c;
    let pred = |b: (Seq<char>, Seq<char>)| category_of(lowercase(b.1)) == c;
    bs.lemma_filter_contains(pred, i);
    assert(in_category(bs, c) == bs.filter(pred));
    let all = category_order().map_values(|n: Seq<char>| (n, in_category(bs, n)));
    assert(all[k] == (c, in_category(bs, c)));
    let nonempty = |g: (Seq<char>, Seq<(Seq<char>, Seq<char>)>)| g.1.len() > 0;
    assert(in_category(bs, c).len() > 0);
    all.lemma_filter_contains(nonempty, k);
    assert(grouped(bs) == all.filter(nonempty));
    let g = choose|g: int| 0 <= g < grouped(bs).len() && grouped(bs)[g] == all[k];
    assert(grouped(bs)[g].0 == c);
}

fn category_names() -> (r: Vec<&'static str>)
    ensures
        r@.map_values(|s: &str| s@) == category_order(),
{
    let mut r: Vec<&'static str> = Vec::new();
    r.push("Window Snapping");
    r.push("Window Switching");
    r.push("Displays");
    r.push("Focus");
    r.push("Move Window");
    r.push("Workspaces");
    r.push("Layout");
    r.push("Apps & Commands");
    r.push("Other");
    assert(r@.map_values(|s: &str| s@) =~= category_order());
    r
}

/// A copy of a binding.
pub fn copy_binding(b: &Binding) -> (r: Binding)
    ensures
        r@ == b@,
{
    Binding { keys: b.keys.clone(), command: b.command.clone() }
}

/// Sorts bindings into their categories: one group per non-empty
/// category, in a fixed order, each keeping the bindings' order.
pub fn group_bindings(bindings: Vec<Binding>) -> (r: Vec<BindingGroup>)
    ensures
        groups_view(r@) == grouped(bindings_view(bindings@)),
{
    let ghost bv = bindings_view(bindings@);
    let names = category_names();
    let ghost nv = names@.map_values(|s: &str| s@);
    let ghost all = category_order().map_values(
        |n: Seq<char>| (n, in_category(bv, n)),
    );
    // the category of each binding, computed once
    let mut cats: Vec<Vec<char>> = Vec::new();
    let mut i: usize = 0;
    while i < bindings.len()
        invariant
            i <= bindings.len(),
            cats.len() == i,
            forall|j: int|
                0 <= j < i ==> #[trigger] cats@[j]@ == category_of(lowercase(bindings@[j].command@)),
        decreases bindings.len() - i,
    {
        let c = categorize(&bindings[i]);
        cats.push(chars_of(c));
        i += 1;
    }
    let mut groups: Vec<BindingGroup> = Vec::new();
    let mut k: usize = 0;
    while k < names.len()
        invariant
            k <= names.len() == 9,
            nv == category_order(),
            groups_view(groups@) == all.take(k as int).filter(
                |g: (Seq<char>, Seq<(Seq<char>, Seq<char>)>)| g.1.len() > 0,
            ),
        decreases names.len() - k,
    {
        let name = chars_of(names[k]);
        assert(name@ == category_order()[k as int]);
        let mut list: Vec<Binding> = Vec::new();
        let mut i: usize = 0;
        while i < bindings.len()
            invariant
                i <= bindings.len(),
                bindings_view(list@) == bv.take(i as int).filter(
                    |b: (Seq<char>, Seq<char>)| category_of(lowercase(b.1)) == name@,
                ),
            decreases bindings.len() - i,
        {
            proof {
                reveal_with_fuel(Seq::<_>::filter, 1);
                assert(bv.take(i + 1).drop_last() == bv.take(i as int));
            }
            if chars_eq(&cats[i], &name) {
                let ghost before = list@;
                list.push(copy_binding(&bindings[i]));
                assert(bindings_view(list@) == bindings_view(before).push(bv[i as int]));
            }
            i += 1;
        }
        assert(bv.take(bindings.len() as int) == bv);
        proof {
            reveal_with_fuel(Seq::<_>::filter, 1);
            assert(all.take(k + 1).drop_last() == all.take(k as int));
        }
        if list.len() > 0 {
            let ghost before = groups@;
            groups.push(BindingGroup { name: String::from_str(names[k]), bindings: list });
            assert(groups_view(groups@) == groups_view(before).push(all[k as int]));
        }
        k += 1;
    }
    assert(all.take(9) == all);
    groups
}

// ── Label generation ────────────────────────────────────────

/// The label of `oblong snap <dir>`.
pub open spec fn snap_label(dir: Seq<char>) -> Seq<char> {
    if dir == "left"@ {
        "Snap Left (½ → ⅓ → ⅔)"@
    } else if dir == "right"@ {
        "Snap Right (½ → ⅓ → ⅔)"@
    } else if dir == "up"@ {
        "Snap Top (½ → ⅓ → ⅔)"@
    } else if dir == "down"@ {
        "Snap Bottom (½ → ⅓ → ⅔)"@
    } else if dir == "topleft"@ {
        "Top Left (½ → ⅓ → ⅔)"@
    } else if dir == "topright"@ {
        "Top Right (½ → ⅓ → ⅔)"@
    } else if dir == "bottomleft"@ {
        "Bottom Left (½ → ⅓ → ⅔)"@
    } else if dir == "bottomright"@ {
        "Bottom Right (½ → ⅓ → ⅔)"@
    } else if dir == "maximize"@ {
        "Maximize"@
    } else if dir == "center"@ {
        "Center (⅔ → ½ → ⅓)"@
    } else if dir == "restore"@ {
        "Restore Tiling"@
    } else {
        "Snap "@ + dir
    }
}

/// The label of `oblong switch <dir>`.
pub open spec fn switch_label(dir: Seq<char>) -> Seq<char> {
    if dir == "next"@ {
        "Next Window"@
    } else if dir == "prev"@ {
        "Previous Window"@
    } else {
        "Switch "@ + dir
    }
}

/// Labels of the legacy inline snapping commands.
pub open spec fn legacy_snap_label(low: Seq<char>) -> Option<Seq<char>> {
    if contains(low, "width 100ppt height 100ppt"@) && contains(low, "move position 0 0"@) {
        Some("Maximize"@)
    } else if contains(low, "width 50ppt height 100ppt"@) && contains(low, "position 0 0"@)
        && !contains(low, "50ppt 0"@) {
        Some("Left Half"@)
    } else if contains(low, "width 50ppt height 100ppt"@) && contains(low, "50ppt 0"@) {
        Some("Right Half"@)
    } else if contains(low, "width 100ppt height 50ppt"@) && contains(low, "position 0 0"@) {
        Some("Top Half"@)
    } else if contains(low, "width 100ppt height 50ppt"@) && contains(low, "0 50ppt"@) {
        Some("Bottom Half"@)
    } else {
        None
    }
}

/// Labels of window, display, focus and move commands.
pub open spec fn window_label(low: Seq<char>) -> Option<Seq<char>> {
    if low == "floating disable"@ {
        Some("Restore Tiling"@)
    } else if low == "floating toggle"@ {
        Some("Toggle Floating"@)
    } else if low == "fullscreen toggle"@ {
        Some("Toggle Fullscreen"@)
    } else if contains(low, "output left"@) {
        Some("Move to Prev Display"@)
    } else if contains(low, "output right"@) {
        Some("Move to Next Display"@)
    } else if low == "focus left"@ {
        Some("Focus Left"@)
    } else if low == "focus right"@ {
        Some("Focus Right"@)
    } else if low == "focus up"@ {
        Some("Focus Up"@)
    } else if low == "focus down"@ {
        Some("Focus Down"@)
    } else if low == "move left"@ {
        Some("Move Left"@)
    } else if low == "move right"@ {
        Some("Move Right"@)
    } else if low == "move up"@ {
        Some("Move Up"@)
    } else if low == "move down"@ {
        Some("Move Down"@)
    } else {
        None
    }
}

/// Labels of workspace, layout and application commands.
pub open spec fn misc_label(low: Seq<char>) -> Option<Seq<char>> {
    if starts_with(low, "workspace number "@) {
        Some("Workspace "@ + low.skip("workspace number "@.len() as int))
    } else if contains(low, "move container to workspace number"@) {
        Some(
            "Move to Workspace "@ + match last_word(low) {
                Some(w) => w,
                None => "?"@,
            },
        )
    } else if low == "workspace back_and_forth"@ {
        Some("Last Workspace"@)
    } else if low == "layout stacking"@ {
        Some("Stacking Layout"@)
    } else if low == "layout tabbed"@ {
        Some("Tabbed Layout"@)
    } else if low == "layout toggle split"@ {
        Some("Toggle Split"@)
    } else if low == "kill"@ {
        Some("Close Window"@)
    } else if contains(low, "$launcher"@) || contains(low, "fuzzel"@) {
        Some("App Launcher"@)
    } else if contains(low, "$term"@) || contains(low, "terminal"@) {
        Some("Terminal"@)
    } else if contains(low, "grim"@) && contains(low, "slurp"@) {
        Some("Screenshot (region)"@)
    } else if contains(low, "grim"@) {
        Some("Screenshot"@)
    } else if contains(low, "swaymsg exit"@) {
        Some("Exit Sway"@)
    } else {
        None
    }
}

/// The human-readable label of command `cmd`, given its lowercase form
/// `low`: the first rule that matches, else the command itself.
pub open spec fn command_label(cmd: Seq<char>, low: Seq<char>) -> Seq<char> {
    if contains(low, "oblong snap"@) && last_word(low) is Some {
        snap_label(last_word(low)->0)
    } else if contains(low, "oblong switch"@) && last_word(low) is Some {
        switch_label(last_word(low)->0)
    } else if legacy_snap_label(low) is Some {
        legacy_snap_label(low)->0
    } else if window_label(low) is Some {
        window_label(low)->0
    } else if misc_label(low) is Some {
        misc_label(low)->0
    } else {
        cmd
    }
}

/// The directions of `oblong snap` that have a label of their own.
pub open spec fn snap_directions() -> Seq<Seq<char>> {
    seq!["left"@, "right"@, "up"@, "down"@, "topleft"@, "topright"@, "bottomleft"@, "bottomright"@, "maximize"@, "center"@, "restore"@]
}

/// The label of an `oblong snap` command names the direction its last
/// word gives: left, right, top and bottom halves cycling to a third and
/// two thirds, the four corners, maximize, center and restore; any other
/// direction is shown as `Snap` and the word.
pub proof fn lemma_snap_command_labels(cmd: Seq<char>, low: Seq<char>, dir: Seq<char>)
    ensures
        contains(low, "oblong snap"@) && last_word(low) == Some("left"@) ==> command_label(cmd, low) == "Snap Left (½ → ⅓ → ⅔)"@,
        contains(low, "oblong snap"@) && last_word(low) == Some("right"@) ==> command_label(cmd, low) == "Snap Right (½ → ⅓ → ⅔)"@,
        contains(low, "oblong snap"@) && last_word(low) == Some("up"@) ==> command_label(cmd, low) == "Snap Top (½ → ⅓ → ⅔)"@,
        contains(low, "oblong snap"@) && last_word(low) == Some("down"@) ==> command_label(cmd, low) == "Snap Bottom (½ → ⅓ → ⅔)"@,
        contains(low, "oblong snap"@) && last_word(low) == Some("topleft"@) ==> command_label(cmd, low) == "Top Left (½ → ⅓ → ⅔)"@,
        contains(low, "oblong snap"@) && last_word(low) == Some("topright"@) ==> command_label(cmd, low) == "Top Right (½ → ⅓ → ⅔)"@,
        contains(low, "oblong snap"@) && last_word(low) == Some("bottomleft"@) ==> command_label(cmd, low) == "Bottom Left (½ → ⅓ → ⅔)"@,
        contains(low, "oblong snap"@) && last_word(low) == Some("bottomright"@) ==> command_label(cmd, low) == "Bottom Right (½ → ⅓ → ⅔)"@,
        contains(low, "oblong snap"@) && last_word(low) == Some("maximize"@) ==> command_label(cmd, low) == "Maximize"@,
        contains(low, "oblong snap"@) && last_word(low) == Some("center"@) ==> command_label(cmd, low) == "Center (⅔ → ½ → ⅓)"@,
        contains(low, "oblong snap"@) && last_word(low) == Some("restore"@) ==> command_label(cmd, low) == "Restore Tiling"@,
        contains(low, "oblong snap"@) && last_word(low) == Some(dir) && !snap_directions().contains(dir) ==> command_label(cmd, low) == "Snap "@ + dir,
{
    reveal_strlit("left");
    reveal_strlit("right");
    reveal_strlit("up");
    reveal_strlit("down");
    reveal_strlit("topleft");
    reveal_strlit("topright");
    reveal_strlit("bottomleft");
    reveal_strlit("bottomright");
    reveal_strlit("maximize");
    reveal_strlit("center");
    reveal_strlit("restore");
    reveal_strlit("next");
    reveal_strlit("prev");
    assert("right"@.len() != "left"@.len());
    assert("up"@.len() != "left"@.len());
    assert("up"@.len() != "right"@.len());
    assert("down"@[0] != "left"@[0]);
    assert("down"@.len() != "right"@.len());
    assert("down"@.len() != "up"@.len());
    assert("topleft"@.len() != "left"@.len());
    assert("topleft"@.len() != "right"@.len());
    assert("topleft"@.len() != "up"@.len());
    assert("topleft"@.len() != "down"@.len());
    assert("topright"@.len() != "left"@.len());
    assert("topright"@.len() != "right"@.len());
    assert("topright"@.len() != "up"@.len());
    assert("topright"@.len() != "down"@.len());
    assert("topright"@.len() != "topleft"@.len());
    assert("bottomleft"@.len() != "left"@.len());
    assert("bottomleft"@.len() != "right"@.len());
    assert("bottomleft"@.len() != "up"@.len());
    assert("bottomleft"@.len() != "down"@.len());
    assert("bottomleft"@.len() != "topleft"@.len());
    assert("bottomleft"@.len() != "topright"@.len());
    assert("bottomright"@.len() != "left"@.len());
    assert("bottomright"@.len() != "right"@.len());
    assert("bottomright"@.len() != "up"@.len());
    assert("bottomright"@.len() != "down"@.len());
    assert("bottomright"@.len() != "topleft"@.len());
    assert("bottomright"@.len() != "topright"@.len());
    assert("bottomright"@.len() != "bottomleft"@.len());
    assert("maximize"@.len() != "left"@.len());
    assert("maximize"@.len() != "right"@.len());
    assert("maximize"@.len() != "up"@.len());
    assert("maximize"@.len() != "down"@.len());
    assert("maximize"@.len() != "topleft"@.len());
    assert("maximize"@[0] != "topright"@[0]);
    assert("maximize"@.len() != "bottomleft"@.len());
    assert("maximize"@.len() != "bottomright"@.len());
    assert("center"@.len() != "left"@.len());
    assert("center"@.len() != "right"@.len());
    assert("center"@.len() != "up"@.len());
    assert("center"@.len() != "down"@.len());
    assert("center"@.len() != "topleft"@.len());
    assert("center"@.len() != "topright"@.len());
    assert("center"@.len() != "bottomleft"@.len());
    assert("center"@.len() != "bottomright"@.len());
    assert("center"@.len() != "maximize"@.len());
    assert("restore"@.len() != "left"@.len());
    assert("restore"@.len() != "right"@.len());
    assert("restore"@.len() != "up"@.len());
    assert("restore"@.len() != "down"@.len());
    assert("restore"@[0] != "topleft"@[0]);
    assert("restore"@.len() != "topright"@.len());
    assert("restore"@.len() != "bottomleft"@.len());
    assert("restore"@.len() != "bottomright"@.len());
    assert("restore"@.len() != "maximize"@.len());
    assert("restore"@.len() != "center"@.len());
    assert("prev"@[0] != "next"@[0]);
    if contains(low, "oblong snap"@) && last_word(low) == Some(dir) && !snap_directions().contains(dir) {
        assert(snap_directions()[0] == "left"@);
        assert(snap_directions()[1] == "right"@);
        assert(snap_directions()[2] == "up"@);
        assert(snap_directions()[3] == "down"@);
        assert(snap_directions()[4] == "topleft"@);
        assert(snap_directions()[5] == "topright"@);
        assert(snap_directions()[6] == "bottomleft"@);
        assert(snap_directions()[7] == "bottomright"@);
        assert(snap_directions()[8] == "maximize"@);
        assert(snap_directions()[9] == "center"@);
        assert(snap_directions()[10] == "restore"@);
    }
}

/// The label of an `oblong switch` command (that is no snap command):
/// `next` and `prev` name the next and previous window; any other word is
/// shown as `Switch` and the word.
pub proof fn lemma_switch_command_labels(cmd: Seq<char>, low: Seq<char>, dir: Seq<char>)
    ensures
        !contains(low, "oblong snap"@) && contains(low, "oblong switch"@) && last_word(low) == Some(
            "next"@,
        ) ==> command_label(cmd, low) == "Next Window"@,
        !contains(low, "oblong snap"@) && contains(low, "oblong switch"@) && last_word(low) == Some(
            "prev"@,
        ) ==> command_label(cmd, low) == "Previous Window"@,
        !contains(low, "oblong snap"@) && contains(low, "oblong switch"@) && last_word(low) == Some(dir)
            && dir != "next"@ && dir != "prev"@ ==> command_label(cmd, low) == "Switch "@ + dir,
{
    reveal_strlit("next");
    reveal_strlit("prev");
    assert("next"@[0] != "prev"@[0]);
}

/// A string holding the literal `s`.
pub fn lit(s: &str) -> (r: String)
    ensures
        r@ == s@,
{
    String::from_str(s)
}

/// `prefix` followed by the characters `rest`.
fn lit_then(prefix: &str, rest: &Vec<char>) -> (r: String)
    ensures
        r@ == prefix@ + rest@,
{
    let mut v = chars_of(prefix);
    extend_chars(&mut v, rest);
    string_of(&v)
}

fn snap_label_exec(dir: &Vec<char>) -> (r: String)
    ensures
        r@ == snap_label(dir@),
{
    if eq_str(dir, "left") {
        lit("Snap Left (½ → ⅓ → ⅔)")
    } else if eq_str(dir, "right") {
        lit("Snap Right (½ → ⅓ → ⅔)")
    } else if eq_str(dir, "up") {
        lit("Snap Top (½ → ⅓ → ⅔)")
    } else if eq_str(dir, "down") {
        lit("Snap Bottom (½ → ⅓ → ⅔)")
    } else if eq_str(dir, "topleft") {
        lit("Top Left (½ → ⅓ → ⅔)")
    } else if eq_str(dir, "topright") {
        lit("Top Right (½ → ⅓ → ⅔)")
    } else if eq_str(dir, "bottomleft") {
        lit("Bottom Left (½ → ⅓ → ⅔)")
    } else if eq_str(dir, "bottomright") {
        lit("Bottom Right (½ → ⅓ → ⅔)")
    } else if eq_str(dir, "maximize") {
        lit("Maximize")
    } else if eq_str(dir, "center") {
        lit("Center (⅔ → ½ → ⅓)")
    } else if eq_str(dir, "restore") {
        lit("Restore Tiling")
    } else {
        lit_then("Snap ", dir)
    }
}

fn switch_label_exec(dir: &Vec<char>) -> (r: String)
    ensures
        r@ == switch_label(dir@),
{
    if eq_str(dir, "next") {
        lit("Next Window")
    } else if eq_str(dir, "prev") {
        lit("Previous Window")
    } else {
        lit_then("Switch ", dir)
    }
}

fn legacy_snap_label_exec(low: &Vec<char>) -> (r: Option<String>)
    ensures
        r matches Some(x) ==> legacy_snap_label(low@) == Some(x@),
        r is None ==> legacy_snap_label(low@) is None,
{
    if contains_str(low, "width 100ppt height 100ppt") && contains_str(low, "move position 0 0") {
        Some(lit("Maximize"))
    } else if contains_str(low, "width 50ppt height 100ppt") && contains_str(low, "position 0 0")
        && !contains_str(low, "50ppt 0") {
        Some(lit("Left Half"))
    } else if contains_str(low, "width 50ppt height 100ppt") && contains_str(low, "50ppt 0") {
        Some(lit("Right Half"))
    } else if contains_str(low, "width 100ppt height 50ppt") && contains_str(low, "position 0 0") {
        Some(lit("Top Half"))
    } else if contains_str(low, "width 100ppt height 50ppt") && contains_str(low, "0 50ppt") {
        Some(lit("Bottom Half"))
    } else {
        None
    }
}

fn window_label_exec(low: &Vec<char>) -> (r: Option<String>)
    ensures
        r matches Some(x) ==> window_label(low@) == Some(x@),
        r is None ==> window_label(low@) is None,
{
    if eq_str(low, "floating disable") {
        Some(lit("Restore Tiling"))
    } else if eq_str(low, "floating toggle") {
        Some(lit("Toggle Floating"))
    } else if eq_str(low, "fullscreen toggle") {
        Some(lit("Toggle Fullscreen"))
    } else if contains_str(low, "output left") {
        Some(lit("Move to Prev Display"))
    } else if contains_str(low, "output right") {
        Some(lit("Move to Next Display"))
    } else if eq_str(low, "focus left") {
        Some(lit("Focus Left"))
    } else if eq_str(low, "focus right") {
        Some(lit("Focus Right"))
    } else if eq_str(low, "focus up") {
        Some(lit("Focus Up"))
    } else if eq_str(low, "focus down") {
        Some(lit("Focus Down"))
    } else if eq_str(low, "move left") {
        Some(lit("Move Left"))
    } else if eq_str(low, "move right") {
        Some(lit("Move Right"))
    } else if eq_str(low, "move up") {
        Some(lit("Move Up"))
    } else if eq_str(low, "move down") {
        Some(lit("Move Down"))
    } else {
        None
    }
}

fn misc_label_exec(low: &Vec<char>) -> (r: Option<String>)
    ensures
        r matches Some(x) ==> misc_label(low@) == Some(x@),
        r is None ==> misc_label(low@) is None,
{
    let wn = chars_of("workspace number ");
    if starts_with_exec(low, &wn) {
        let rest = slice_chars(low, wn.len(), low.len());
        assert(rest@ == low@.skip("workspace number "@.len() as int));
        Some(lit_then("Workspace ", &rest))
    } else if contains_str(low, "move container to workspace number") {
        match last_word_exec(low) {
            Some(w) => Some(lit_then("Move to Workspace ", &w)),
            None => {
                let q = chars_of("?");
                Some(lit_then("Move to Workspace ", &q))
            },
        }
    } else if eq_str(low, "workspace back_and_forth") {
        Some(lit("Last Workspace"))
    } else if eq_str(low, "layout stacking") {
        Some(lit("Stacking Layout"))
    } else if eq_str(low, "layout tabbed") {
        Some(lit("Tabbed Layout"))
    } else if eq_str(low, "layout toggle split") {
        Some(lit("Toggle Split"))
    } else if eq_str(low, "kill") {
        Some(lit("Close Window"))
    } else if contains_str(low, "$launcher") || contains_str(low, "fuzzel") {
        Some(lit("App Launcher"))
    } else if contains_str(low, "$term") || contains_str(low, "terminal") {
        Some(lit("Terminal"))
    } else if contains_str(low, "grim") && contains_str(low, "slurp") {
        Some(lit("Screenshot (region)"))
    } else if contains_str(low, "grim") {
        Some(lit("Screenshot"))
    } else if contains_str(low, "swaymsg exit") {
        Some(lit("Exit Sway"))
    } else {
        None
    }
}

/// The label of `cmd`, given `cmd_lower`, its lowercase form.
pub fn label_for_lowered(cmd: &str, cmd_lower: &str) -> (r: String)
    ensures
        r@ == command_label(cmd@, cmd_lower@),
{
    let low = chars_of(cmd_lower);
    if contains_str(&low, "oblong snap") {
        if let Some(dir) = last_word_exec(&low) {
            return snap_label_exec(&dir);
        }
    }
    if contains_str(&low, "oblong switch") {
        if let Some(dir) = last_word_exec(&low) {
            return switch_label_exec(&dir);
        }
    }
    if let Some(x) = legacy_snap_label_exec(&low) {
        return x;
    }
    if let Some(x) = window_label_exec(&low) {
        return x;
    }
    if let Some(x) = misc_label_exec(&low) {
        return x;
    }
    String::from_str(cmd)
}

/// The human-readable label of a sway command.
pub fn label_for_command(cmd: &str) -> (r: String)
    ensures
        r@ == command_label(cmd@, lowercase(cmd@)),
        all_ascii(cmd@) ==> r@ == command_label(cmd@, ascii_lower(cmd@)),
{
    let low = to_lowercase(cmd);
    label_for_lowered(cmd, low.as_str())
}

// ── Paths ───────────────────────────────────────────────────

/// `PathBuf::join` on Unix, for paths held as text: an absolute `comp`
/// replaces `base`; otherwise a `/` is put between them unless `base` is
/// empty or already ends with one.
pub open spec fn path_join(base: Seq<char>, comp: Seq<char>) -> Seq<char> {
    if comp.len() > 0 && comp[0] == '/' {
        comp
    } else if base.len() > 0 && base.last() != '/' {
        base + seq!['/'] + comp
    } else {
        base + comp
    }
}

pub fn join_path(base: &str, comp: &str) -> (r: String)
    ensures
        r@ == path_join(base@, comp@),
{
    let b = chars_of(base);
    let c = chars_of(comp);
    if c.len() > 0 && c[0] == '/' {
        return string_of(&c);
    }
    let mut v = b;
    if v.len() > 0 && v[v.len() - 1] != '/' {
        v.push('/');
    }
    extend_chars(&mut v, &c);
    string_of(&v)
}

/// The user's main sway config: `<home>/.config/sway/config`.
pub fn sway_config_path(home: &str) -> (r: String)
    ensures
        r@ == path_join(path_join(path_join(home@, ".config"@), "sway"@), "config"@),
{
    let a = join_path(home, ".config");
    let b = join_path(a.as_str(), "sway");
    join_path(b.as_str(), "config")
}

/// Oblong's own settings directory: `<home>/.config/oblong`.
pub fn config_dir(home: &str) -> (r: String)
    ensures
        r@ == path_join(path_join(home@, ".config"@), "oblong"@),
{
    let a = join_path(home, ".config");
    join_path(a.as_str(), "oblong")
}

/// The bindings file: `bindings.json` in the settings directory.
pub fn config_path(home: &str) -> (r: String)
    ensures
        r@ == path_join(path_join(path_join(home@, ".config"@), "oblong"@), "bindings.json"@),
{
    let d = config_dir(home);
    join_path(d.as_str(), "bindings.json")
}

/// The directory of the generated sway files: `<home>/.config/sway/oblong`.
pub fn sway_oblong_dir(home: &str) -> (r: String)
    ensures
        r@ == path_join(path_join(path_join(home@, ".config"@), "sway"@), "oblong"@),
{
    let a = join_path(home, ".config");
    let b = join_path(a.as_str(), "sway");
    join_path(b.as_str(), "oblong")
}

// ── Include management ──────────────────────────────────────

pub open spec fn include_line() -> Seq<char> {
    "include ~/.config/sway/oblong/*.conf"@
}

pub open spec fn include_banner() -> Seq<char> {
    "\n\n# ── Oblong window management ──\n"@
}

/// Whether some line of `content` is the include line, up to whitespace.
pub open spec fn has_include(content: Seq<char>) -> bool {
    exists|i: int| 0 <= i < lines(content).len() && trim(#[trigger] lines(content)[i]) == include_line()
}

/// The main config with the include line added: the content without its
/// trailing whitespace, a banner comment, the line, a newline.
pub open spec fn with_include(content: Seq<char>) -> Seq<char> {
    trim_end(content) + include_banner() + include_line() + seq!['\n']
}

/// The new text of the main config, or `None` when the include line is
/// already there (nothing to write).
pub fn ensure_include(content: &str) -> (r: Option<String>)
    ensures
        has_include(content@) ==> r is None,
        !has_include(content@) ==> (r matches Some(s) && s@ == with_include(content@)),
{
    let cv = chars_of(content);
    let ls = lines_of(&cv);
    let inc = chars_of("include ~/.config/sway/oblong/*.conf");
    let mut i: usize = 0;
    while i < ls.len()
        invariant
            i <= ls.len() == lines(content@).len(),
            inc@ == include_line(),
            forall|j: int| 0 <= j < i ==> trim(#[trigger] lines(content@)[j]) != include_line(),
        decreases ls.len() - i,
    {
        let t = trim_vec(&ls[i]);
        if chars_eq(&t, &inc) {
            return None;
        }
        i += 1;
    }
    let mut out = trim_end_vec(&cv);
    extend_str(&mut out, "\n\n# ── Oblong window management ──\n");
    extend_chars(&mut out, &inc);
    out.push('\n');
    Some(string_of(&out))
}

/// Adding the include line is idempotent: once added, it is found, so a
/// second call writes nothing.
pub proof fn lemma_include_idempotent(content: Seq<char>)
    ensures
        has_include(with_include(content)),
{
    reveal_strlit("include ~/.config/sway/oblong/*.conf");
    reveal_strlit("\n\n# ── Oblong window management ──\n");
    reveal_strlit("\n");
    let p = trim_end(content) + include_banner();
    let l = include_line();
    assert(with_include(content) == p + (l + seq!['\n']));
    assert(p.last() == '\n');
    crate::text::lemma_lines_append(p, l + seq!['\n']);
    crate::text::lemma_lines_single(l);
    crate::text::lemma_trim_noop(l);
    let ls = lines(with_include(content));
    assert(ls[lines(p).len() as int] == l);
}

// ── Conflict detection ──────────────────────────────────────

/// Whether `keys` is one of the managed bindings' keys, trimmed.
pub open spec fn is_managed_key(managed: Seq<(Seq<char>, Seq<char>)>, keys: Seq<char>) -> bool {
    exists|j: int| 0 <= j < managed.len() && trim(#[trigger] managed[j].0) == keys
}

/// The keys of the main config's bindings that a managed binding also
/// binds, in the main config's order.
pub open spec fn conflicting_keys(
    content: Seq<char>,
    managed: Seq<(Seq<char>, Seq<char>)>,
) -> Seq<Seq<char>> {
    sway_bindings(content).filter(
        |b: (Seq<char>, Seq<char>)| is_managed_key(managed, trim(b.0)),
    ).map_values(|b: (Seq<char>, Seq<char>)| b.0)
}

/// Keys bound both in the main config text `content` and by a managed
/// binding.
pub fn detect_conflicts(content: &str, managed: &[&Binding]) -> (r: Vec<String>)
    ensures
        r@.map_values(|k: String| k@) == conflicting_keys(
            content@,
            managed@.map_values(|b: &Binding| b@),
        ),
{
    let ghost mv = managed@.map_values(|b: &Binding| b@);
    let sway = parse_sway_bindings(content);
    let ghost sv = bindings_view(sway@);
    let mut mkeys: Vec<Vec<char>> = Vec::new();
    let mut j: usize = 0;
    while j < managed.len()
        invariant
            j <= managed.len(),
            mv == managed@.map_values(|b: &Binding| b@),
            mkeys.len() == j,
            forall|x: int| 0 <= x < j ==> #[trigger] mkeys@[x]@ == trim(mv[x].0),
        decreases managed.len() - j,
    {
        let kc = chars_of(managed[j].keys.as_str());
        mkeys.push(trim_vec(&kc));
        j += 1;
    }
    let ghost pred = |b: (Seq<char>, Seq<char>)| is_managed_key(mv, trim(b.0));
    let mut r: Vec<String> = Vec::new();
    let mut i: usize = 0;
    while i < sway.len()
        invariant
            i <= sway.len(),
            sv == bindings_view(sway@),
            mkeys.len() == mv.len(),
            forall|x: int| 0 <= x < mkeys.len() ==> #[trigger] mkeys@[x]@ == trim(mv[x].0),
            r@.map_values(|k: String| k@) == sv.take(i as int).filter(pred).map_values(
                |b: (Seq<char>, Seq<char>)| b.0,
            ),
        decreases sway.len() - i,
    {
        proof {
            reveal_with_fuel(Seq::<_>::filter, 1);
            assert(sv.take(i + 1).drop_last() == sv.take(i as int));
        }
        let kc = chars_of(sway[i].keys.as_str());
        let k = trim_vec(&kc);
        let mut found = false;
        let mut x: usize = 0;
        while x < mkeys.len()
            invariant
                x <= mkeys.len(),
                found == exists|y: int| 0 <= y < x && trim(#[trigger] mv[y].0) == k@,
            decreases mkeys.len() - x,
        {
            if chars_eq(&mkeys[x], &k) {
                found = true;
            }
            x += 1;
        }
        assert(found == pred(sv[i as int]));
        if found {
            let ghost before = r@;
            r.push(sway[i].keys.clone());
            assert(r@.map_values(|k: String| k@) == before.map_values(|k: String| k@).push(
                sv[i as int].0,
            ));
            assert(sv.take(i + 1).filter(pred) == sv.take(i as int).filter(pred).push(sv[i as int]));
        }
        i += 1;
    }
    assert(sv.take(sway.len() as int) == sv);
    r
}

// ── Commenting out conflicts ───────────────────────────────

pub open spec fn oblong_mark() -> Seq<char> {
    "# [oblong] "@
}

/// Whether a line is a `bindsym` of one of `keys`: the text after
/// `bindsym ` starts with the key and a space or a backslash.
pub open spec fn is_conflict_line(line: Seq<char>, keys: Seq<Seq<char>>) -> bool {
    let t = trim(line);
    starts_with(t, "bindsym "@) && exists|k: int|
        0 <= k < keys.len() && {
            let rest = t.skip("bindsym "@.len() as int);
            starts_with(rest, #[trigger] keys[k] + seq![' ']) || starts_with(
                rest,
                keys[k] + seq!['\\'],
            )
        }
}

/// The continuation lines of the binding on line `i`, commented out, and
/// the index of the line after them.
pub open spec fn commented_continuation(ls: Seq<Seq<char>>, i: int) -> (Seq<Seq<char>>, int)
    decreases ls.len() - i,
{
    if 0 <= i < ls.len() && ends_with(trim_end(ls[i]), seq!['\\']) {
        if i + 1 < ls.len() {
            let (more, j) = commented_continuation(ls, i + 1);
            (seq![oblong_mark() + ls[i + 1]] + more, j)
        } else {
            (seq![], ls.len() as int)
        }
    } else {
        (seq![], i + 1)
    }
}

pub proof fn lemma_commented_continuation_advances(ls: Seq<Seq<char>>, i: int)
    requires
        0 <= i,
    ensures
        commented_continuation(ls, i).1 > i,
        i < ls.len() ==> commented_continuation(ls, i).1 <= ls.len(),
    decreases ls.len() - i,
{
    if 0 <= i < ls.len() && ends_with(trim_end(ls[i]), seq!['\\']) && i + 1 < ls.len() {
        lemma_commented_continuation_advances(ls, i + 1);
    }
}

/// The lines from `i` on with conflicting bindings (and their
/// continuation lines) commented out, and how many bindings that was.
pub open spec fn comment_lines(ls: Seq<Seq<char>>, keys: Seq<Seq<char>>, i: int) -> (
    Seq<Seq<char>>,
    nat,
)
    decreases ls.len() - i,
{
    if i < 0 || i >= ls.len() {
        (seq![], 0)
    } else if is_conflict_line(ls[i], keys) {
        let (cont, j) = commented_continuation(ls, i);
        proof {
            lemma_commented_continuation_advances(ls, i);
        }
        let (rest, n) = comment_lines(ls, keys, j);
        (seq![oblong_mark() + ls[i]] + cont + rest, n + 1)
    } else {
        let (rest, n) = comment_lines(ls, keys, i + 1);
        (seq![ls[i]] + rest, n)
    }
}

/// The main config text with the conflicting bindings commented out, and
/// their number.
pub open spec fn commented_out(content: Seq<char>, keys: Seq<Seq<char>>) -> (Seq<char>, nat) {
    let (ls, n) = comment_lines(lines(content), keys, 0);
    (join(ls, "\n"@), n)
}

fn is_conflict_line_exec(line: &Vec<char>, keys: &Vec<Vec<char>>) -> (r: bool)
    ensures
        r == is_conflict_line(line@, keys@.map_values(|k: Vec<char>| k@)),
{
    let ghost kv = keys@.map_values(|k: Vec<char>| k@);
    let t = trim_vec(line);
    let prefix = chars_of("bindsym ");
    if !starts_with_exec(&t, &prefix) {
        return false;
    }
    let rest = slice_chars(&t, prefix.len(), t.len());
    assert(rest@ == t@.skip("bindsym "@.len() as int));
    let mut k: usize = 0;
    while k < keys.len()
        invariant
            k <= keys.len(),
            kv == keys@.map_values(|k: Vec<char>| k@),
            forall|x: int|
                0 <= x < k ==> !(starts_with(rest@, #[trigger] kv[x] + seq![' ']) || starts_with(
                    rest@,
                    kv[x] + seq!['\\'],
                )),
        decreases keys.len() - k,
    {
        let mut a = keys[k].clone();
        a.push(' ');
        let mut b = keys[k].clone();
        b.push('\\');
        assert(a@ == kv[k as int] + seq![' ']);
        assert(b@ == kv[k as int] + seq!['\\']);
        if starts_with_exec(&rest, &a) || starts_with_exec(&rest, &b) {
            return true;
        }
        k += 1;
    }
    false
}

/// The commented continuation of line `i`, appended to `out`.
fn comment_continuation_exec(ls: &Vec<Vec<char>>, i: usize, out: &mut Vec<Vec<char>>) -> (r: usize)
    requires
        i < ls.len(),
    ensures
        ({
            let (cont, j) = commented_continuation(ls@.map_values(|l: Vec<char>| l@), i as int);
            &&& final(out)@.map_values(|l: Vec<char>| l@) == old(out)@.map_values(
                |l: Vec<char>| l@,
            ) + cont
            &&& r == j
            &&& r <= ls.len()
        }),
{
    let ghost lv = ls@.map_values(|l: Vec<char>| l@);
    let ghost start = out@.map_values(|l: Vec<char>| l@);
    let ghost target = commented_continuation(lv, i as int);
    let mut i = i;
    let ghost mut acc: Seq<Seq<char>> = seq![];
    proof {
        lemma_commented_continuation_advances(lv, i as int);
    }
    loop
        invariant
            i < ls.len(),
            lv == ls@.map_values(|l: Vec<char>| l@),
            out@.map_values(|l: Vec<char>| l@) == start + acc,
            target.1 <= ls.len(),
            target == ({
                let (c, j) = commented_continuation(lv, i as int);
                (acc + c, j)
            }),
        decreases ls.len() - i,
    {
        let t = trim_end_vec(&ls[i]);
        assert(t@ == trim_end(lv[i as int]));
        let cont = t.len() > 0 && t[t.len() - 1] == '\\';
        assert(cont == ends_with(t@, seq!['\\'])) by {
            if t.len() > 0 {
                assert(t@.skip(t.len() - 1)[0] == t@[t.len() - 1]);
                if t@[t.len() - 1] == '\\' {
                    assert(t@.skip(t.len() - 1) == seq!['\\']);
                }
            }
        }
        if !cont {
            assert(commented_continuation(lv, i as int) == (Seq::<Seq<char>>::empty(), i + 1));
            assert(acc + Seq::<Seq<char>>::empty() == acc);
            return i + 1;
        }
        if i + 1 >= ls.len() {
            assert(acc + Seq::<Seq<char>>::empty() == acc);
            return ls.len();
        }
        let mut line = chars_of("# [oblong] ");
        extend_chars(&mut line, &ls[i + 1]);
        let ghost before = out@.map_values(|l: Vec<char>| l@);
        out.push(line);
        proof {
            assert(out@.map_values(|l: Vec<char>| l@) == before.push(oblong_mark() + lv[i + 1]));
            let (c2, j2) = commented_continuation(lv, i + 1);
            assert(acc + (seq![oblong_mark() + lv[i + 1]] + c2) == acc.push(oblong_mark() + lv[i + 1]) + c2);
            acc = acc.push(oblong_mark() + lv[i + 1]);
        }
        i += 1;
    }
}

proof fn lemma_continuation_shape(ls: Seq<Seq<char>>, i: int)
    requires
        0 <= i < ls.len(),
    ensures
        ({
            let (cont, j) = commented_continuation(ls, i);
            &&& i < j <= ls.len()
            &&& cont.len() == j - i - 1
            &&& forall|k: int| 0 <= k < cont.len() ==> #[trigger] cont[k] == oblong_mark() + ls[i + 1 + k]
        }),
    decreases ls.len() - i,
{
    if ends_with(trim_end(ls[i]), seq!['\\']) && i + 1 < ls.len() {
        lemma_continuation_shape(ls, i + 1);
        let (more, j) = commented_continuation(ls, i + 1);
        let cont = seq![oblong_mark() + ls[i + 1]] + more;
        assert forall|k: int| 0 <= k < cont.len() implies #[trigger] cont[k] == oblong_mark() + ls[i
            + 1 + k] by {
            if k > 0 {
                assert(cont[k] == more[k - 1]);
            }
        }
    }
}

/// The lines that commenting out conflicts writes back: one for each line
/// from `i` on, either unchanged or with the mark put in front.
pub proof fn lemma_comment_lines_shape(ls: Seq<Seq<char>>, keys: Seq<Seq<char>>, i: int)
    requires
        0 <= i <= ls.len(),
    ensures
        ({
            let (out, n) = comment_lines(ls, keys, i);
            &&& out.len() == ls.len() - i
            &&& forall|k: int|
                0 <= k < out.len() ==> #[trigger] out[k] == ls[i + k] || out[k] == oblong_mark()
                    + ls[i + k]
        }),
    decreases ls.len() - i,
{
    if i < ls.len() {
        if is_conflict_line(ls[i], keys) {
            lemma_continuation_shape(ls, i);
            let (cont, j) = commented_continuation(ls, i);
            lemma_comment_lines_shape(ls, keys, j);
            let (rest, n) = comment_lines(ls, keys, j);
            let out = seq![oblong_mark() + ls[i]] + cont + rest;
            assert forall|k: int| 0 <= k < out.len() implies #[trigger] out[k] == ls[i + k] || out[k]
                == oblong_mark() + ls[i + k] by {
                if k == 0 {
                } else if k <= cont.len() {
                    assert(out[k] == cont[k - 1]);
                } else {
                    assert(out[k] == rest[k - 1 - cont.len()]);
                }
            }
        } else {
            lemma_comment_lines_shape(ls, keys, i + 1);
            let (rest, n) = comment_lines(ls, keys, i + 1);
            let out = seq![ls[i]] + rest;
            assert forall|k: int| 0 <= k < out.len() implies #[trigger] out[k] == ls[i + k] || out[k]
                == oblong_mark() + ls[i + k] by {
                if k > 0 {
                    assert(out[k] == rest[k - 1]);
                }
            }
        }
    }
}

/// Commenting out conflicts only marks lines: the text written back has
/// one line for each line of the main config, either unchanged or with
/// `# [oblong] ` in front, so removing the marks restores it.
pub proof fn lemma_comment_out_only_marks(content: Seq<char>, keys: Seq<Seq<char>>)
    ensures
        ({
            let (out, n) = comment_lines(lines(content), keys, 0);
            &&& commented_out(content, keys).0 == join(out, "\n"@)
            &&& out.len() == lines(content).len()
            &&& forall|k: int|
                0 <= k < out.len() ==> #[trigger] out[k] == lines(content)[k] || out[k]
                    == oblong_mark() + lines(content)[k]
        }),
{
    lemma_comment_lines_shape(lines(content), keys, 0);
}

/// A marked line is no `bindsym` line.
proof fn lemma_marked_is_no_binding(l: Seq<char>, keys: Seq<Seq<char>>)
    ensures
        !is_conflict_line(oblong_mark() + l, keys),
{
    reveal_strlit("# [oblong] ");
    reveal_strlit("bindsym ");
    let m = oblong_mark() + l;
    assert(m[0] == '#');
    crate::text::lemma_trim_keeps_first(m);
    assert("bindsym "@[0] == 'b');
    if starts_with(trim(m), "bindsym "@) {
        assert(trim(m)[0] == "bindsym "@[0]);
    }
}

proof fn lemma_no_conflict_left_from(ls: Seq<Seq<char>>, keys: Seq<Seq<char>>, i: int)
    requires
        0 <= i <= ls.len(),
    ensures
        forall|k: int|
            0 <= k < comment_lines(ls, keys, i).0.len() ==> !is_conflict_line(
                #[trigger] comment_lines(ls, keys, i).0[k],
                keys,
            ),
    decreases ls.len() - i,
{
    if i < ls.len() {
        if is_conflict_line(ls[i], keys) {
            lemma_continuation_shape(ls, i);
            let (cont, j) = commented_continuation(ls, i);
            lemma_no_conflict_left_from(ls, keys, j);
            let (rest, n) = comment_lines(ls, keys, j);
            let out = seq![oblong_mark() + ls[i]] + cont + rest;
            assert forall|k: int| 0 <= k < out.len() implies !is_conflict_line(#[trigger] out[k], keys) by {
                if k == 0 {
                    lemma_marked_is_no_binding(ls[i], keys);
                } else if k <= cont.len() {
                    assert(out[k] == cont[k - 1]);
                    lemma_marked_is_no_binding(ls[i + k], keys);
                } else {
                    assert(out[k] == rest[k - 1 - cont.len()]);
                }
            }
        } else {
            lemma_no_conflict_left_from(ls, keys, i + 1);
            let (rest, n) = comment_lines(ls, keys, i + 1);
            let out = seq![ls[i]] + rest;
            assert forall|k: int| 0 <= k < out.len() implies !is_conflict_line(#[trigger] out[k], keys) by {
                if k > 0 {
                    assert(out[k] == rest[k - 1]);
                }
            }
        }
    }
}

/// Fixing conflicts leaves none behind: no line that commenting out
/// writes back is a `bindsym` of one of the keys it was given.
pub proof fn lemma_fix_leaves_no_conflict(content: Seq<char>, keys: Seq<Seq<char>>)
    ensures
        ({
            let (out, n) = comment_lines(lines(content), keys, 0);
            &&& commented_out(content, keys).0 == join(out, "\n"@)
            &&& forall|k: int| 0 <= k < out.len() ==> !is_conflict_line(#[trigger] out[k], keys)
        }),
{
    lemma_no_conflict_left_from(lines(content), keys, 0);
}

/// The main config text with every `bindsym` of one of `keys_to_disable`
/// commented out (with its continuation lines), marked `# [oblong] `; and
/// the number of bindings commented out.
pub fn comment_out_conflicts(content: &str, keys_to_disable: &[String]) -> (r: (String, usize))
    ensures
        (r.0@, r.1 as nat) == commented_out(content@, keys_to_disable@.map_values(|k: String| k@)),
{
    let ghost kv = keys_to_disable@.map_values(|k: String| k@);
    let mut keys: Vec<Vec<char>> = Vec::new();
    let mut x: usize = 0;
    while x < keys_to_disable.len()
        invariant
            x <= keys_to_disable.len(),
            keys.len() == x,
            forall|y: int| 0 <= y < x ==> #[trigger] keys@[y]@ == kv[y],
        decreases keys_to_disable.len() - x,
    {
        keys.push(chars_of(keys_to_disable[x].as_str()));
        x += 1;
    }
    assert(keys@.map_values(|k: Vec<char>| k@) =~= kv);
    let cv = chars_of(content);
    let ls = lines_of(&cv);
    let ghost lv = ls@.map_values(|l: Vec<char>| l@);
    assert(lv =~= lines(content@));
    let ghost target = comment_lines(lv, kv, 0);
    let mut out: Vec<Vec<char>> = Vec::new();
    let mut count: usize = 0;
    let mut i: usize = 0;
    assert(target == ({
        let (rest, n) = comment_lines(lv, kv, 0);
        (Seq::<Seq<char>>::empty() + rest, (0 + n) as nat)
    }));
    while i < ls.len()
        invariant
            i <= ls.len(),
            lv == ls@.map_values(|l: Vec<char>| l@),
            keys@.map_values(|k: Vec<char>| k@) == kv,
            count <= i,
            target == ({
                let (rest, n) = comment_lines(lv, kv, i as int);
                (out@.map_values(|l: Vec<char>| l@) + rest, (count + n) as nat)
            }),
        decreases ls.len() - i,
    {
        let ghost before = out@.map_values(|l: Vec<char>| l@);
        if is_conflict_line_exec(&ls[i], &keys) {
            let mut line = chars_of("# [oblong] ");
            extend_chars(&mut line, &ls[i]);
            out.push(line);
            count += 1;
            assert(out@.map_values(|l: Vec<char>| l@) == before.push(oblong_mark() + lv[i as int]));
            let j = comment_continuation_exec(&ls, i, &mut out);
            proof {
                lemma_commented_continuation_advances(lv, i as int);
                let (cont, jj) = commented_continuation(lv, i as int);
                let (rest, n) = comment_lines(lv, kv, jj);
                assert(before + (seq![oblong_mark() + lv[i as int]] + cont + rest) == before.push(
                    oblong_mark() + lv[i as int],
                ) + cont + rest);
            }
            i = j;
        } else {
            out.push(ls[i].clone());
            assert(out@.map_values(|l: Vec<char>| l@) == before.push(lv[i as int]));
            proof {
                let (rest, n) = comment_lines(lv, kv, i + 1);
                assert(before + (seq![lv[i as int]] + rest) == before.push(lv[i as int]) + rest);
            }
            i += 1;
        }
    }
    assert(out@.map_values(|l: Vec<char>| l@) + Seq::<Seq<char>>::empty() == out@.map_values(
        |l: Vec<char>| l@,
    ));
    let text = join_lines(&out, "\n");
    (text, count)
}

// ── Sway config writing ────────────────────────────────────

/// The block written for one binding: its label as a comment, then the
/// `bindsym` line and an empty line; nothing when its keys are blank.
pub open spec fn binding_block(b: (Seq<char>, Seq<char>)) -> Seq<char> {
    if trim(b.0).len() == 0 {
        seq![]
    } else {
        "# "@ + command_label(b.1, lowercase(b.1)) + "\nbindsym "@ + b.0 + " "@ + b.1 + "\n\n"@
    }
}

pub open spec fn binding_blocks(bs: Seq<(Seq<char>, Seq<char>)>) -> Seq<char>
    decreases bs.len(),
{
    if bs.len() == 0 {
        seq![]
    } else {
        binding_blocks(bs.drop_last()) + binding_block(bs.last())
    }
}

/// The text of the managed `shortcuts.conf`.
pub open spec fn shortcuts_text(bs: Seq<(Seq<char>, Seq<char>)>) -> Seq<char> {
    "# ── Oblong — auto-generated, do not edit by hand ──\n\n"@ + binding_blocks(bs)
}

/// The managed `shortcuts.conf` for the given bindings; bindings whose
/// keys are blank are left out.
pub fn shortcuts_conf(bindings: &[&Binding]) -> (r: String)
    ensures
        r@ == shortcuts_text(bindings@.map_values(|b: &Binding| b@)),
{
    let ghost bv = bindings@.map_values(|b: &Binding| b@);
    let mut out = chars_of("# ── Oblong — auto-generated, do not edit by hand ──\n\n");
    let ghost head = out@;
    let mut i: usize = 0;
    while i < bindings.len()
        invariant
            i <= bindings.len(),
            bv == bindings@.map_values(|b: &Binding| b@),
            head == "# ── Oblong — auto-generated, do not edit by hand ──\n\n"@,
            out@ == head + binding_blocks(bv.take(i as int)),
        decreases bindings.len() - i,
    {
        let b = bindings[i];
        let kc = chars_of(b.keys.as_str());
        let kt = trim_vec(&kc);
        assert(bv.take(i + 1).drop_last() == bv.take(i as int));
        assert(bv.take(i + 1).last() == b@);
        if kt.len() > 0 {
            let label = label_for_command(b.command.as_str());
            let ghost before = out@;
            extend_str(&mut out, "# ");
            extend_str(&mut out, label.as_str());
            extend_str(&mut out, "\nbindsym ");
            extend_chars(&mut out, &kc);
            extend_str(&mut out, " ");
            extend_str(&mut out, b.command.as_str());
            extend_str(&mut out, "\n\n");
            assert(out@ == before + binding_block(b@));
        } else {
            assert(binding_block(b@) == Seq::<char>::empty());
            assert(out@ == out@ + binding_block(b@));
        }
        i += 1;
    }
    assert(bv.take(bindings.len() as int) == bv);
    string_of(&out)
}

} // verus!
