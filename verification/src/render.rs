//! The renderer: a deterministic projection of a pipeline into the YAML
//! document the external executor consumes.
//!
//! Block style throughout: a nested mapping is indented two further columns,
//! a sequence sits at the same column as its key, and a sequence item that is
//! a mapping carries its first entry on the dash line. A scalar is written
//! plain unless that could change its meaning — it is empty, looks like a
//! number or a YAML word, starts with an indicator character, or holds a
//! character sequence such as a colon-space that block style reserves — in
//! which case it is single-quoted with inner quotes doubled.

use vstd::prelude::*;
use crate::errors::Errors;
use crate::schema::SpecEntry;

verus! {

/// Whether the character is a decimal digit.
pub open spec fn is_digit(c: char) -> bool {
    '0' <= c && c <= '9'
}

/// All characters from the flag onwards form digits with at most one dot.
pub open spec fn num_chars(s: Seq<char>, seen_dot: bool) -> bool
    decreases s.len(),
{
    if s.len() == 0 {
        true
    } else if is_digit(s[0]) {
        num_chars(s.drop_first(), seen_dot)
    } else if s[0] == '.' && !seen_dot {
        num_chars(s.drop_first(), true)
    } else {
        false
    }
}

/// The sequence holds at least one digit.
pub open spec fn has_digit(s: Seq<char>) -> bool
    decreases s.len(),
{
    s.len() > 0 && (is_digit(s[0]) || has_digit(s.drop_first()))
}

/// The string would be read back as a number: an optional sign, then digits
/// with at most one dot and at least one digit.
pub open spec fn looks_like_number(s: Seq<char>) -> bool {
    s.len() > 0 && {
        let t = if s[0] == '-' || s[0] == '+' {
            s.drop_first()
        } else {
            s
        };
        t.len() > 0 && num_chars(t, false) && has_digit(t)
    }
}

/// Somewhere a colon is followed by a space or ends the string.
pub open spec fn has_colon_space(s: Seq<char>) -> bool
    decreases s.len(),
{
    if s.len() == 0 {
        false
    } else if s[0] == ':' && (s.len() == 1 || s[1] == ' ') {
        true
    } else {
        has_colon_space(s.drop_first())
    }
}

/// Somewhere a space is followed by a hash.
pub open spec fn has_space_hash(s: Seq<char>) -> bool
    decreases s.len(),
{
    if s.len() <= 1 {
        false
    } else if s[0] == ' ' && s[1] == '#' {
        true
    } else {
        has_space_hash(s.drop_first())
    }
}

/// Somewhere a control character sits.
pub open spec fn has_control(s: Seq<char>) -> bool
    decreases s.len(),
{
    if s.len() == 0 {
        false
    } else if (s[0] as u32) < 32 {
        true
    } else {
        has_control(s.drop_first())
    }
}

/// The character opens an indicator that plain style reserves at the start
/// of a scalar.
pub open spec fn is_start_indicator(c: char) -> bool {
    c == '!' || c == '&' || c == '*' || c == '|' || c == '>' || c == '%' || c == '@' || c == '`'
        || c == '"' || c == '\'' || c == '#' || c == ',' || c == '[' || c == ']' || c == '{'
        || c == '}'
}

/// The string is one of the words YAML reads as a boolean or a null.
pub open spec fn is_yaml_word(s: Seq<char>) -> bool {
    s == "~"@ || s == "null"@ || s == "Null"@ || s == "NULL"@ || s == "true"@ || s == "True"@
        || s == "TRUE"@ || s == "false"@ || s == "False"@ || s == "FALSE"@ || s == "yes"@
        || s == "Yes"@ || s == "YES"@ || s == "no"@ || s == "No"@ || s == "NO"@ || s == "on"@
        || s == "On"@ || s == "ON"@ || s == "off"@ || s == "Off"@ || s == "OFF"@
}

/// Whether the scalar must be quoted to keep its meaning.
pub open spec fn needs_quote(s: Seq<char>) -> bool {
    ||| s.len() == 0
    ||| s[0] == ' '
    ||| s[s.len() - 1] == ' '
    ||| is_start_indicator(s[0])
    ||| ((s[0] == '-' || s[0] == '?' || s[0] == ':') && (s.len() == 1 || s[1] == ' '))
    ||| has_colon_space(s)
    ||| has_space_hash(s)
    ||| has_control(s)
    ||| looks_like_number(s)
    ||| is_yaml_word(s)
}

/// The string with every single quote doubled.
pub open spec fn esc_quotes(s: Seq<char>) -> Seq<char>
    decreases s.len(),
{
    if s.len() == 0 {
        Seq::empty()
    } else if s[0] == '\'' {
        seq!['\'', '\''] + esc_quotes(s.drop_first())
    } else {
        seq![s[0]] + esc_quotes(s.drop_first())
    }
}

/// The scalar as written into the document.
pub open spec fn yaml_scalar(s: Seq<char>) -> Seq<char> {
    if needs_quote(s) {
        "'"@ + esc_quotes(s) + "'"@
    } else {
        s
    }
}

/// Whether the suffix of `s` from `i` on forms digits with at most one dot,
/// given whether a dot was already seen.
fn check_num_chars(s: &str, i: usize, seen_dot: bool) -> (r: bool)
    requires
        i <= s@.len(),
        s@.len() <= usize::MAX,
    ensures
        r == num_chars(s@.subrange(i as int, s@.len() as int), seen_dot),
    decreases s@.len() - i,
{
    let n = s.unicode_len();
    proof {
        assert(s@.subrange(i as int, s@.len() as int).len() == s@.len() - i);
    }
    if i == n {
        return true;
    }
    let c = s.get_char(i);
    proof {
        assert(s@.subrange(i as int, s@.len() as int)[0] == c);
        assert(s@.subrange(i as int, s@.len() as int).drop_first() =~= s@.subrange(
            i + 1,
            s@.len() as int,
        ));
    }
    if '0' <= c && c <= '9' {
        check_num_chars(s, i + 1, seen_dot)
    } else if c == '.' && !seen_dot {
        check_num_chars(s, i + 1, true)
    } else {
        false
    }
}

/// Whether the suffix of `s` from `i` on holds a digit.
fn check_has_digit(s: &str, i: usize) -> (r: bool)
    requires
        i <= s@.len(),
        s@.len() <= usize::MAX,
    ensures
        r == has_digit(s@.subrange(i as int, s@.len() as int)),
    decreases s@.len() - i,
{
    let n = s.unicode_len();
    proof {
        assert(s@.subrange(i as int, s@.len() as int).len() == s@.len() - i);
    }
    if i == n {
        return false;
    }
    let c = s.get_char(i);
    proof {
        assert(s@.subrange(i as int, s@.len() as int)[0] == c);
        assert(s@.subrange(i as int, s@.len() as int).drop_first() =~= s@.subrange(
            i + 1,
            s@.len() as int,
        ));
    }
    if '0' <= c && c <= '9' {
        true
    } else {
        check_has_digit(s, i + 1)
    }
}

/// Whether the suffix of `s` from `i` on holds a colon followed by a space
/// or the end.
fn check_colon_space(s: &str, i: usize) -> (r: bool)
    requires
        i <= s@.len(),
        s@.len() <= usize::MAX,
    ensures
        r == has_colon_space(s@.subrange(i as int, s@.len() as int)),
    decreases s@.len() - i,
{
    let n = s.unicode_len();
    proof {
        assert(s@.subrange(i as int, s@.len() as int).len() == s@.len() - i);
    }
    if i == n {
        return false;
    }
    let c = s.get_char(i);
    proof {
        assert(s@.subrange(i as int, s@.len() as int)[0] == c);
        if i + 1 < s@.len() {
            assert(s@.subrange(i as int, s@.len() as int)[1] == s@[i + 1]);
        }
        assert(s@.subrange(i as int, s@.len() as int).drop_first() =~= s@.subrange(
            i + 1,
            s@.len() as int,
        ));
    }
    if c == ':' && (i + 1 == n || s.get_char(i + 1) == ' ') {
        true
    } else {
        check_colon_space(s, i + 1)
    }
}

/// Whether the suffix of `s` from `i` on holds a space followed by a hash.
fn check_space_hash(s: &str, i: usize) -> (r: bool)
    requires
        i <= s@.len(),
        s@.len() <= usize::MAX,
    ensures
        r == has_space_hash(s@.subrange(i as int, s@.len() as int)),
    decreases s@.len() - i,
{
    let n = s.unicode_len();
    proof {
        assert(s@.subrange(i as int, s@.len() as int).len() == s@.len() - i);
    }
    if i >= n || i + 1 >= n {
        return false;
    }
    proof {
        assert(s@.subrange(i as int, s@.len() as int)[0] == s@[i as int]);
        assert(s@.subrange(i as int, s@.len() as int)[1] == s@[i + 1]);
        assert(s@.subrange(i as int, s@.len() as int).drop_first() =~= s@.subrange(
            i + 1,
            s@.len() as int,
        ));
    }
    if s.get_char(i) == ' ' && s.get_char(i + 1) == '#' {
        true
    } else {
        check_space_hash(s, i + 1)
    }
}

/// Whether the suffix of `s` from `i` on holds a control character.
fn check_control(s: &str, i: usize) -> (r: bool)
    requires
        i <= s@.len(),
        s@.len() <= usize::MAX,
    ensures
        r == has_control(s@.subrange(i as int, s@.len() as int)),
    decreases s@.len() - i,
{
    let n = s.unicode_len();
    proof {
        assert(s@.subrange(i as int, s@.len() as int).len() == s@.len() - i);
    }
    if i == n {
        return false;
    }
    let c = s.get_char(i);
    proof {
        assert(s@.subrange(i as int, s@.len() as int)[0] == c);
        assert(s@.subrange(i as int, s@.len() as int).drop_first() =~= s@.subrange(
            i + 1,
            s@.len() as int,
        ));
    }
    if (c as u32) < 32 {
        true
    } else {
        check_control(s, i + 1)
    }
}

/// Whether `s` equals the word `w`.
fn str_is(s: &str, w: &str) -> (r: bool)
    ensures
        r == (s@ == w@),
{
    matches!(crate::textutil::str_compare(s, w), crate::textutil::StrOrder::Same)
}

/// Whether the scalar must be quoted; the executable twin of `needs_quote`.
fn check_needs_quote(s: &str) -> (r: bool)
    ensures
        r == needs_quote(s@),
{
    let n = s.unicode_len();
    if n == 0 {
        return true;
    }
    let first = s.get_char(0);
    let last = s.get_char(n - 1);
    if first == ' ' || last == ' ' {
        return true;
    }
    if first == '!' || first == '&' || first == '*' || first == '|' || first == '>' || first == '%'
        || first == '@' || first == '`' || first == '"' || first == '\'' || first == '#'
        || first == ',' || first == '[' || first == ']' || first == '{' || first == '}' {
        return true;
    }
    if (first == '-' || first == '?' || first == ':') && (n == 1 || s.get_char(1) == ' ') {
        return true;
    }
    proof {
        assert(s@.subrange(0, s@.len() as int) =~= s@);
    }
    if check_colon_space(s, 0) {
        return true;
    }
    if check_space_hash(s, 0) {
        return true;
    }
    if check_control(s, 0) {
        return true;
    }
    let signed = first == '-' || first == '+';
    let start: usize = if signed {
        1
    } else {
        0
    };
    proof {
        if signed {
            assert(s@.drop_first() =~= s@.subrange(1, s@.len() as int));
        }
    }
    if start < n && check_num_chars(s, start, false) && check_has_digit(s, start) {
        return true;
    }
    if str_is(s, "~") || str_is(s, "null") || str_is(s, "Null") || str_is(s, "NULL")
        || str_is(s, "true") || str_is(s, "True") || str_is(s, "TRUE") || str_is(s, "false")
        || str_is(s, "False") || str_is(s, "FALSE") || str_is(s, "yes") || str_is(s, "Yes")
        || str_is(s, "YES") || str_is(s, "no") || str_is(s, "No") || str_is(s, "NO")
        || str_is(s, "on") || str_is(s, "On") || str_is(s, "ON") || str_is(s, "off")
        || str_is(s, "Off") || str_is(s, "OFF") {
        return true;
    }
    false
}

/// Appends the quote-escaped suffix of `s` from `i` on.
fn write_escaped(s: &str, i: usize, out: &mut String)
    requires
        i <= s@.len(),
        s@.len() <= usize::MAX,
    ensures
        final(out)@ == old(out)@ + esc_quotes(s@.subrange(i as int, s@.len() as int)),
    decreases s@.len() - i,
{
    let n = s.unicode_len();
    proof {
        assert(s@.subrange(i as int, s@.len() as int).len() == s@.len() - i);
    }
    if i == n {
        proof {
            assert(old(out)@ + esc_quotes(s@.subrange(i as int, s@.len() as int)) =~= out@);
        }
        return;
    }
    let c = s.get_char(i);
    let ghost before = out@;
    proof {
        assert(s@.subrange(i as int, s@.len() as int)[0] == c);
        assert(s@.subrange(i as int, s@.len() as int).drop_first() =~= s@.subrange(
            i + 1,
            s@.len() as int,
        ));
    }
    if c == '\'' {
        out.append("''");
        proof {
            reveal_strlit("''");
            assert(out@ =~= before + seq!['\'', '\'']);
        }
    } else {
        let one = s.substring_char(i, i + 1);
        proof {
            assert(one@ =~= seq![c]);
        }
        out.append(one);
        proof {
            assert(out@ =~= before + seq![c]);
        }
    }
    let ghost mid = out@;
    write_escaped(s, i + 1, out);
    proof {
        assert(out@ =~= before + esc_quotes(s@.subrange(i as int, s@.len() as int)));
    }
}

/// Appends the scalar, quoted when its plain form could change its meaning.
pub fn write_scalar(s: &str, out: &mut String)
    ensures
        final(out)@ == old(out)@ + yaml_scalar(s@),
{
    let ghost before = out@;
    if check_needs_quote(s) {
        out.append("'");
        let n = s.unicode_len();
        proof {
            assert(s@.subrange(0, s@.len() as int) =~= s@);
        }
        write_escaped(s, 0, out);
        out.append("'");
        proof {
            assert(out@ =~= before + ("'"@ + esc_quotes(s@) + "'"@));
        }
    } else {
        out.append(s);
    }
}


/// A sorted map rendered as one `key: value` line per entry.
pub open spec fn spec_render_entries(es: Seq<SpecEntry>, p: Seq<char>) -> Seq<char>
    decreases es.len(),
{
    if es.len() == 0 {
        Seq::empty()
    } else {
        p + yaml_scalar(es[0].0) + ": "@ + yaml_scalar(es[0].1) + "\n"@
            + spec_render_entries(es.drop_first(), p)
    }
}

/// A map-valued field: omitted when absent, `{}` when present but empty,
/// else a nested block.
pub open spec fn spec_render_map_field(
    key: Seq<char>,
    m: Option<Seq<SpecEntry>>,
    p: Seq<char>,
) -> Seq<char> {
    match m {
        None => Seq::empty(),
        Some(es) => if es.len() == 0 {
            p + key + ": {}\n"@
        } else {
            p + key + ":\n"@ + spec_render_entries(es, p + "  "@)
        },
    }
}

/// A pinned version: omitted when absent, a literal word, or the custom map.
pub open spec fn spec_render_version_field(v: Option<crate::schema::SpecVersion>, p: Seq<char>) -> Seq<
    char,
> {
    match v {
        None => Seq::empty(),
        Some(crate::schema::SpecVersion::Latest) => p + "version: latest\n"@,
        Some(crate::schema::SpecVersion::Every) => p + "version: every\n"@,
        Some(crate::schema::SpecVersion::Custom(es)) => p + "version:\n"@ + spec_render_entries(
            es,
            p + "  "@,
        ),
    }
}

/// The upstream job names a fetch is gated on, one list item each.
pub open spec fn spec_render_passed(js: Seq<crate::model::SpecJob>, p: Seq<char>) -> Seq<char>
    decreases js.len(),
{
    if js.len() == 0 {
        Seq::empty()
    } else {
        p + "- "@ + yaml_scalar(js[0].name) + "\n"@ + spec_render_passed(js.drop_first(), p)
    }
}

/// A fetch step.
pub open spec fn spec_render_get(g: crate::model::SpecGet, first: Seq<char>, p: Seq<char>) -> Seq<
    char,
> {
    first + "get: "@ + yaml_scalar(
        if g.get.len() > 0 {
            g.get
        } else {
            g.resource.name
        },
    ) + "\n"@ + (if g.get.len() > 0 {
        p + "resource: "@ + yaml_scalar(g.resource.name) + "\n"@
    } else {
        Seq::empty()
    }) + spec_render_version_field(g.version, p) + (if g.trigger {
        p + "trigger: true\n"@
    } else {
        Seq::empty()
    }) + (match g.passed {
        None => Seq::empty(),
        Some(js) => p + "passed:\n"@ + spec_render_passed(js, p),
    })
}

/// A publish step.
pub open spec fn spec_render_put(pt: crate::model::SpecPut, first: Seq<char>, p: Seq<char>) -> Seq<
    char,
> {
    first + "put: "@ + yaml_scalar(
        if pt.put.len() > 0 {
            pt.put
        } else {
            pt.resource.name
        },
    ) + "\n"@ + (if pt.put.len() > 0 {
        p + "resource: "@ + yaml_scalar(pt.resource.name) + "\n"@
    } else {
        Seq::empty()
    }) + (if pt.params.len() > 0 {
        p + "params:\n"@ + spec_render_entries(pt.params, p + "  "@)
    } else {
        Seq::empty()
    })
}

/// An image resource rendered inline: its type's name, its source, and its
/// pinned version; the inline form never carries params.
pub open spec fn spec_render_image_resource(r: crate::model::SpecResource, p: Seq<char>) -> Seq<
    char,
> {
    p + "type: "@ + yaml_scalar(r.typ.rendered_name()) + "\n"@ + (if r.source.len() == 0 {
        p + "source: {}\n"@
    } else {
        p + "source:\n"@ + spec_render_entries(r.source, p + "  "@)
    }) + spec_render_version_field(r.version, p)
}

/// The rendered line for a platform.
pub open spec fn spec_platform_line(pf: crate::model::SpecPlatform) -> Seq<char> {
    match pf {
        crate::model::SpecPlatform::Linux => "platform: linux\n"@,
        crate::model::SpecPlatform::Darwin => "platform: darwin\n"@,
        crate::model::SpecPlatform::Windows => "platform: windows\n"@,
    }
}

/// Plain string list items.
pub open spec fn spec_render_str_items(v: Seq<Seq<char>>, p: Seq<char>) -> Seq<char>
    decreases v.len(),
{
    if v.len() == 0 {
        Seq::empty()
    } else {
        p + "- "@ + yaml_scalar(v[0]) + "\n"@ + spec_render_str_items(v.drop_first(), p)
    }
}

/// The command a task runs.
pub open spec fn spec_render_command(c: crate::model::SpecCommand, p: Seq<char>) -> Seq<char> {
    p + "path: "@ + yaml_scalar(c.path) + "\n"@ + (match c.args {
        None => Seq::empty(),
        Some(a) => if a.len() == 0 {
            p + "args: []\n"@
        } else {
            p + "args:\n"@ + spec_render_str_items(a, p)
        },
    })
}

/// Declared inputs, one mapping item each.
pub open spec fn spec_render_inputs(v: Seq<crate::model::SpecInput>, p: Seq<char>) -> Seq<char>
    decreases v.len(),
{
    if v.len() == 0 {
        Seq::empty()
    } else {
        p + "- name: "@ + yaml_scalar(v[0].name) + "\n"@ + (match v[0].path {
            None => Seq::empty(),
            Some(pth) => p + "  path: "@ + yaml_scalar(pth) + "\n"@,
        }) + (if v[0].optional {
            p + "  optional: true\n"@
        } else {
            Seq::empty()
        }) + spec_render_inputs(v.drop_first(), p)
    }
}

/// Declared outputs, one mapping item each.
pub open spec fn spec_render_outputs(v: Seq<crate::model::SpecOutput>, p: Seq<char>) -> Seq<char>
    decreases v.len(),
{
    if v.len() == 0 {
        Seq::empty()
    } else {
        p + "- name: "@ + yaml_scalar(v[0].name) + "\n"@ + (match v[0].path {
            None => Seq::empty(),
            Some(pth) => p + "  path: "@ + yaml_scalar(pth) + "\n"@,
        }) + spec_render_outputs(v.drop_first(), p)
    }
}

/// An inline task configuration; the image resource is left out when the
/// surrounding task carries an explicit image, which takes precedence.
pub open spec fn spec_render_task_config(
    c: crate::model::SpecTaskConfig,
    p: Seq<char>,
    omit_image: bool,
) -> Seq<char> {
    p + spec_platform_line(c.platform) + (if omit_image {
        Seq::empty()
    } else {
        p + "image_resource:\n"@ + spec_render_image_resource(c.image_resource, p + "  "@)
    }) + p + "run:\n"@ + spec_render_command(c.run, p + "  "@) + spec_render_map_field(
        "params"@,
        c.params,
        p,
    ) + (match c.inputs {
        None => Seq::empty(),
        Some(v) => if v.len() == 0 {
            p + "inputs: []\n"@
        } else {
            p + "inputs:\n"@ + spec_render_inputs(v, p)
        },
    }) + (match c.outputs {
        None => Seq::empty(),
        Some(v) => if v.len() == 0 {
            p + "outputs: []\n"@
        } else {
            p + "outputs:\n"@ + spec_render_outputs(v, p)
        },
    })
}

/// An optional hook step under its key.
pub open spec fn spec_render_hook(
    key: Seq<char>,
    h: Option<Box<crate::model::SpecStep>>,
    p: Seq<char>,
) -> Seq<char>
    decreases h,
{
    match h {
        None => Seq::empty(),
        Some(s) => p + key + ":\n"@ + spec_render_step(*s, p + "  "@, p + "  "@),
    }
}

/// A task step.
pub open spec fn spec_render_task(t: crate::model::SpecTask, first: Seq<char>, p: Seq<char>) -> Seq<
    char,
>
    decreases t,
{
    first + "task: "@ + yaml_scalar(t.task) + "\n"@ + (match t.task_def {
        crate::model::SpecTaskDef::Config { config } => p + "config:\n"@ + spec_render_task_config(
            config,
            p + "  "@,
            t.image is Some,
        ),
        crate::model::SpecTaskDef::File { file } => p + "file: "@ + yaml_scalar(file) + "\n"@,
    }) + (match t.image {
        None => Seq::empty(),
        Some(img) => p + "image: "@ + yaml_scalar(img.name) + "\n"@,
    }) + (if t.priviledged {
        p + "privileged: true\n"@
    } else {
        Seq::empty()
    }) + spec_render_map_field("input_mapping"@, t.input_mapping, p) + spec_render_map_field(
        "output_mapping"@,
        t.output_mapping,
        p,
    ) + spec_render_hook("on_failure"@, t.on_failure, p) + spec_render_hook(
        "on_abort"@,
        t.on_abort,
        p,
    ) + spec_render_hook("on_success"@, t.on_success, p)
}

/// One step. The configuration form of a concurrent group is not rendered;
/// the renderer reports it instead, so its projection here is empty.
pub open spec fn spec_render_step(s: crate::model::SpecStep, first: Seq<char>, p: Seq<char>) -> Seq<
    char,
>
    decreases s,
{
    match s {
        crate::model::SpecStep::Get(g) => spec_render_get(g, first, p),
        crate::model::SpecStep::Put(pt) => spec_render_put(pt, first, p),
        crate::model::SpecStep::Task(t) => spec_render_task(t, first, p),
        crate::model::SpecStep::Try(inner) => first + "try:\n"@ + spec_render_step(
            *inner,
            p + "  "@,
            p + "  "@,
        ),
        crate::model::SpecStep::InParallel(ip) => match ip {
            crate::model::SpecInParallel::Steps(v) => if v.len() == 0 {
                first + "in_parallel: []\n"@
            } else {
                first + "in_parallel:\n"@ + spec_render_steps(v, p + "- "@, p + "  "@)
            },
            crate::model::SpecInParallel::InParallelConfig { .. } => Seq::empty(),
        },
    }
}

/// A sequence of steps, one item each.
pub open spec fn spec_render_steps(v: Seq<crate::model::SpecStep>, first: Seq<char>, p: Seq<char>) -> Seq<
    char,
>
    decreases v,
{
    if v.len() == 0 {
        Seq::empty()
    } else {
        spec_render_step(v[0], first, p) + spec_render_steps(v.drop_first(), first, p)
    }
}

/// An optional boolean field, written only when set.
pub open spec fn spec_render_bool_field(key: Seq<char>, b: Option<bool>, p: Seq<char>) -> Seq<char> {
    match b {
        None => Seq::empty(),
        Some(x) => p + key + ": "@ + (if x {
            "true"@
        } else {
            "false"@
        }) + "\n"@,
    }
}

/// A job.
pub open spec fn spec_render_job(j: crate::model::SpecJob, first: Seq<char>, p: Seq<char>) -> Seq<
    char,
>
    decreases j,
{
    first + "name: "@ + yaml_scalar(j.name) + "\n"@ + spec_render_bool_field("public"@, j.public, p)
        + spec_render_bool_field("serial"@, j.serial, p) + (if j.plan.len() == 0 {
        p + "plan: []\n"@
    } else {
        p + "plan:\n"@ + spec_render_steps(j.plan, p + "- "@, p + "  "@)
    }) + spec_render_hook("on_failure"@, j.on_failure, p) + spec_render_hook(
        "on_error"@,
        j.on_error,
        p,
    ) + spec_render_hook("on_abort"@, j.on_abort, p) + spec_render_hook(
        "on_success"@,
        j.on_success,
        p,
    ) + spec_render_hook("ensure"@, j.ensure, p)
}

/// A sequence of jobs, one item each.
pub open spec fn spec_render_jobs(v: Seq<crate::model::SpecJob>, first: Seq<char>, p: Seq<char>) -> Seq<
    char,
>
    decreases v,
{
    if v.len() == 0 {
        Seq::empty()
    } else {
        spec_render_job(v[0], first, p) + spec_render_jobs(v.drop_first(), first, p)
    }
}

/// A resource declaration.
pub open spec fn spec_render_resource(
    r: crate::model::SpecResource,
    first: Seq<char>,
    p: Seq<char>,
) -> Seq<char> {
    first + "name: "@ + yaml_scalar(r.name) + "\n"@ + p + "type: "@ + yaml_scalar(
        r.typ.rendered_name(),
    ) + "\n"@ + (match r.icon {
        None => Seq::empty(),
        Some(ic) => p + "icon: "@ + yaml_scalar(ic) + "\n"@,
    }) + (if r.source.len() > 0 {
        p + "source:\n"@ + spec_render_entries(r.source, p + "  "@)
    } else {
        Seq::empty()
    }) + spec_render_version_field(r.version, p)
}

/// A sequence of resource declarations.
pub open spec fn spec_render_resources(
    v: Seq<crate::model::SpecResource>,
    first: Seq<char>,
    p: Seq<char>,
) -> Seq<char>
    decreases v.len(),
{
    if v.len() == 0 {
        Seq::empty()
    } else {
        spec_render_resource(v[0], first, p) + spec_render_resources(v.drop_first(), first, p)
    }
}

/// A resource type declaration: a built-in type renders only its name, a
/// custom one also its immediate base and any source and params.
pub open spec fn spec_render_resource_type(
    t: crate::model::SpecResourceTypes,
    first: Seq<char>,
    p: Seq<char>,
) -> Seq<char> {
    first + "name: "@ + yaml_scalar(t.rendered_name()) + "\n"@ + (match t {
        crate::model::SpecResourceTypes::Custom { base, source, params, .. } => p + "type: "@
            + yaml_scalar(base.rendered_name()) + "\n"@ + (if source.len() > 0 {
            p + "source:\n"@ + spec_render_entries(source, p + "  "@)
        } else {
            Seq::empty()
        }) + (if params.len() > 0 {
            p + "params:\n"@ + spec_render_entries(params, p + "  "@)
        } else {
            Seq::empty()
        }),
        _ => Seq::empty(),
    })
}

/// A sequence of resource type declarations.
pub open spec fn spec_render_resource_types(
    v: Seq<crate::model::SpecResourceTypes>,
    first: Seq<char>,
    p: Seq<char>,
) -> Seq<char>
    decreases v.len(),
{
    if v.len() == 0 {
        Seq::empty()
    } else {
        spec_render_resource_type(v[0], first, p) + spec_render_resource_types(
            v.drop_first(),
            first,
            p,
        )
    }
}

/// The whole document. Every empty collection is left out entirely.
pub open spec fn spec_render_pipeline(pl: crate::model::SpecPipeline) -> Seq<char> {
    (match pl.display {
        None => Seq::<char>::empty(),
        Some(uri) => "display:\n  background_image: "@ + yaml_scalar(uri) + "\n"@,
    }) + (if pl.jobs.len() > 0 {
        "jobs:\n"@ + spec_render_jobs(pl.jobs, "- "@, "  "@)
    } else {
        Seq::empty()
    }) + (if pl.resources.len() > 0 {
        "resources:\n"@ + spec_render_resources(pl.resources, "- "@, "  "@)
    } else {
        Seq::empty()
    }) + (if pl.resource_types.len() > 0 {
        "resource_types:\n"@ + spec_render_resource_types(pl.resource_types, "- "@, "  "@)
    } else {
        Seq::empty()
    })
}

/// Whether a step's tree holds the configuration form of a concurrent group,
/// which the renderer does not emit. Hooks are rendered, so they are walked
/// too.
pub open spec fn step_has_cfg_parallel(s: crate::model::SpecStep) -> bool
    decreases s,
{
    match s {
        crate::model::SpecStep::Get(_) => false,
        crate::model::SpecStep::Put(_) => false,
        crate::model::SpecStep::Task(t) => hook_has_cfg_parallel(t.on_failure)
            || hook_has_cfg_parallel(t.on_abort) || hook_has_cfg_parallel(t.on_success),
        crate::model::SpecStep::Try(inner) => step_has_cfg_parallel(*inner),
        crate::model::SpecStep::InParallel(ip) => match ip {
            crate::model::SpecInParallel::Steps(v) => steps_have_cfg_parallel(v),
            crate::model::SpecInParallel::InParallelConfig { .. } => true,
        },
    }
}

/// Whether an optional hook holds the configuration form.
pub open spec fn hook_has_cfg_parallel(h: Option<Box<crate::model::SpecStep>>) -> bool
    decreases h,
{
    match h {
        None => false,
        Some(s) => step_has_cfg_parallel(*s),
    }
}

/// Whether any step of the sequence holds the configuration form.
pub open spec fn steps_have_cfg_parallel(v: Seq<crate::model::SpecStep>) -> bool
    decreases v,
{
    v.len() > 0 && (step_has_cfg_parallel(v[0]) || steps_have_cfg_parallel(v.drop_first()))
}

/// Whether a job holds the configuration form anywhere it would render.
pub open spec fn job_has_cfg_parallel(j: crate::model::SpecJob) -> bool
    decreases j,
{
    steps_have_cfg_parallel(j.plan) || hook_has_cfg_parallel(j.on_failure) || hook_has_cfg_parallel(
        j.on_error,
    ) || hook_has_cfg_parallel(j.on_abort) || hook_has_cfg_parallel(j.on_success)
        || hook_has_cfg_parallel(j.ensure)
}

/// Whether any job holds the configuration form.
pub open spec fn jobs_have_cfg_parallel(v: Seq<crate::model::SpecJob>) -> bool
    decreases v,
{
    v.len() > 0 && (job_has_cfg_parallel(v[0]) || jobs_have_cfg_parallel(v.drop_first()))
}

/// Whether the pipeline holds the configuration form anywhere.
pub open spec fn pipeline_has_cfg_parallel(pl: crate::model::SpecPipeline) -> bool {
    jobs_have_cfg_parallel(pl.jobs)
}


/// The report for a tree the renderer does not emit.
pub open spec fn render_refused_message() -> Seq<char> {
    "Cannot render the configuration form of in_parallel"@
}

/// Regrouping two appended fragments.
proof fn lemma_grp2<A>(base: Seq<A>, a: Seq<A>, b: Seq<A>)
    ensures
        base + a + b == base + (a + b),
{
    assert(base + a + b =~= base + (a + b));
}

/// Regrouping three appended fragments.
proof fn lemma_grp3<A>(base: Seq<A>, a: Seq<A>, b: Seq<A>, c: Seq<A>)
    ensures
        base + a + b + c == base + (a + b + c),
{
    assert(base + a + b + c =~= base + (a + b + c));
}

/// Regrouping six appended fragments.
proof fn lemma_grp6<A>(base: Seq<A>, a: Seq<A>, b: Seq<A>, c: Seq<A>, d: Seq<A>, e: Seq<A>, f: Seq<A>)
    ensures
        base + a + b + c + d + e + f == base + (a + b + c + d + e + f),
{
    assert(base + a + b + c + d + e + f =~= base + (a + b + c + d + e + f));
}

/// The pieces of a rendered task configuration, as units.
#[verifier::spinoff_prover]
proof fn lemma_task_config_shape(c: crate::model::SpecTaskConfig, p: Seq<char>, omit_image: bool)
    ensures
        spec_render_task_config(c, p, omit_image) == (p + spec_platform_line(c.platform)) + (
        if omit_image {
            Seq::<char>::empty()
        } else {
            p + "image_resource:\n"@ + spec_render_image_resource(c.image_resource, p + "  "@)
        }) + (p + "run:\n"@ + spec_render_command(c.run, p + "  "@)) + spec_render_map_field(
            "params"@,
            c.params,
            p,
        ) + (match c.inputs {
            None => Seq::<char>::empty(),
            Some(sv) => if sv.len() == 0 {
                p + "inputs: []\n"@
            } else {
                p + "inputs:\n"@ + spec_render_inputs(sv, p)
            },
        }) + (match c.outputs {
            None => Seq::<char>::empty(),
            Some(sv) => if sv.len() == 0 {
                p + "outputs: []\n"@
            } else {
                p + "outputs:\n"@ + spec_render_outputs(sv, p)
            },
        }),
{
    assert(spec_render_task_config(c, p, omit_image) =~= (p + spec_platform_line(c.platform)) + (
    if omit_image {
        Seq::<char>::empty()
    } else {
        p + "image_resource:\n"@ + spec_render_image_resource(c.image_resource, p + "  "@)
    }) + (p + "run:\n"@ + spec_render_command(c.run, p + "  "@)) + spec_render_map_field(
        "params"@,
        c.params,
        p,
    ) + (match c.inputs {
        None => Seq::<char>::empty(),
        Some(sv) => if sv.len() == 0 {
            p + "inputs: []\n"@
        } else {
            p + "inputs:\n"@ + spec_render_inputs(sv, p)
        },
    }) + (match c.outputs {
        None => Seq::<char>::empty(),
        Some(sv) => if sv.len() == 0 {
            p + "outputs: []\n"@
        } else {
            p + "outputs:\n"@ + spec_render_outputs(sv, p)
        },
    }));
}

/// Appends a prefix and a literal.
fn write_text(p: &str, text: &str, out: &mut String)
    ensures
        final(out)@ == old(out)@ + p@ + text@,
{
    out.append(p);
    out.append(text);
    proof {
        assert(out@ =~= old(out)@ + p@ + text@);
    }
}

/// Appends one `key: value` line with a quoted-as-needed value.
fn write_field(p: &str, keycolon: &str, value: &str, out: &mut String)
    ensures
        final(out)@ == old(out)@ + p@ + keycolon@ + yaml_scalar(value@) + "\n"@,
{
    out.append(p);
    out.append(keycolon);
    write_scalar(value, out);
    out.append("\n");
    proof {
        assert(out@ =~= old(out)@ + p@ + keycolon@ + yaml_scalar(value@) + "\n"@);
    }
}

/// Appends the entries of a sorted map from position `i` on.
fn write_entries(cfg: &crate::schema::Config, i: usize, p: &str, out: &mut String)
    requires
        i <= cfg@.len(),
    ensures
        final(out)@ == old(out)@ + spec_render_entries(cfg@.subrange(i as int, cfg@.len() as int), p@),
    decreases cfg@.len() - i,
{
    let n = cfg.len();
    if i == n {
        proof {
            assert(out@ =~= old(out)@ + spec_render_entries(
                cfg@.subrange(i as int, cfg@.len() as int),
                p@,
            ));
        }
        return;
    }
    let ghost before = out@;
    out.append(p);
    write_scalar(cfg.key_at(i).as_str(), out);
    out.append(": ");
    write_scalar(cfg.value_at(i).as_str(), out);
    out.append("\n");
    proof {
        assert(cfg@.subrange(i as int, cfg@.len() as int)[0] == cfg@[i as int]);
        assert(cfg@.subrange(i as int, cfg@.len() as int).drop_first() =~= cfg@.subrange(
            i + 1,
            cfg@.len() as int,
        ));
    }
    write_entries(cfg, i + 1, p, out);
    proof {
        assert(out@ =~= before + spec_render_entries(
            cfg@.subrange(i as int, cfg@.len() as int),
            p@,
        ));
    }
}

/// Appends a map-valued field, `{}` when empty.
fn write_map_field(keyword: &str, m: &Option<crate::schema::Config>, p: &str, out: &mut String)
    ensures
        final(out)@ == old(out)@ + spec_render_map_field(keyword@, crate::model::view_opt(*m), p@),
{
    let ghost before = out@;
    match m {
        None => {
            proof {
                assert(out@ =~= before + spec_render_map_field(
                    keyword@,
                    crate::model::view_opt(*m),
                    p@,
                ));
            }
        }
        Some(cfg) => {
            if cfg.is_empty() {
                out.append(p);
                out.append(keyword);
                out.append(": {}\n");
                proof {
                    assert(out@ =~= before + (p@ + keyword@ + ": {}\n"@));
                }
            } else {
                out.append(p);
                out.append(keyword);
                out.append(":\n");
                let deeper = String::from_str(p).concat("  ");
                proof {
                    assert(cfg@.subrange(0, cfg@.len() as int) =~= cfg@);
                }
                write_entries(cfg, 0, deeper.as_str(), out);
                proof {
                    assert(out@ =~= before + (p@ + keyword@ + ":\n"@ + spec_render_entries(
                        cfg@,
                        p@ + "  "@,
                    )));
                }
            }
        }
    }
}

/// Appends an optional pinned version.
fn write_version_field(v: &Option<crate::schema::Version>, p: &str, out: &mut String)
    ensures
        final(out)@ == old(out)@ + spec_render_version_field(crate::model::view_opt(*v), p@),
{
    let ghost before = out@;
    match v {
        None => {
            proof {
                assert(out@ =~= before + spec_render_version_field(
                    crate::model::view_opt(*v),
                    p@,
                ));
            }
        }
        Some(crate::schema::Version::Latest) => {
            write_text(p, "version: latest\n", out);
        }
        Some(crate::schema::Version::Every) => {
            write_text(p, "version: every\n", out);
        }
        Some(crate::schema::Version::Custom(cfg)) => {
            out.append(p);
            out.append("version:\n");
            let deeper = String::from_str(p).concat("  ");
            proof {
                assert(cfg@.subrange(0, cfg@.len() as int) =~= cfg@);
            }
            write_entries(cfg, 0, deeper.as_str(), out);
            proof {
                assert(out@ =~= before + (p@ + "version:\n"@ + spec_render_entries(
                    cfg@,
                    p@ + "  "@,
                )));
            }
        }
    }
}

/// Appends an optional boolean field.
fn write_bool_field(keyword: &str, b: &Option<bool>, p: &str, out: &mut String)
    ensures
        final(out)@ == old(out)@ + spec_render_bool_field(keyword@, *b, p@),
{
    let ghost before = out@;
    match b {
        None => {
            proof {
                assert(out@ =~= before + spec_render_bool_field(keyword@, *b, p@));
            }
        }
        Some(x) => {
            out.append(p);
            out.append(keyword);
            out.append(": ");
            if *x {
                out.append("true");
            } else {
                out.append("false");
            }
            out.append("\n");
            proof {
                assert(out@ =~= before + (p@ + keyword@ + ": "@ + (if *x {
                    "true"@
                } else {
                    "false"@
                }) + "\n"@));
            }
        }
    }
}

/// Appends the gating job names of a fetch from position `i` on.
fn write_passed(js: &Vec<crate::job::Job>, i: usize, p: &str, out: &mut String)
    requires
        i <= js@.len(),
    ensures
        final(out)@ == old(out)@ + spec_render_passed(
            crate::model::jobs_view(js@).subrange(i as int, js@.len() as int),
            p@,
        ),
    decreases js@.len() - i,
{
    let ghost jv = crate::model::jobs_view(js@);
    proof {
        crate::model::lemma_jobs_view_len(js@);
    }
    if i == js.len() {
        proof {
            assert(out@ =~= old(out)@ + spec_render_passed(
                jv.subrange(i as int, js@.len() as int),
                p@,
            ));
        }
        return;
    }
    let ghost before = out@;
    out.append(p);
    out.append("- ");
    write_scalar(js[i].name.as_str(), out);
    out.append("\n");
    proof {
        assert(jv.subrange(i as int, js@.len() as int)[0] == jv[i as int]);
        assert(jv.subrange(i as int, js@.len() as int).drop_first() =~= jv.subrange(
            i + 1,
            js@.len() as int,
        ));
    }
    write_passed(js, i + 1, p, out);
    proof {
        assert(out@ =~= before + spec_render_passed(
            jv.subrange(i as int, js@.len() as int),
            p@,
        ));
    }
}

/// Appends plain string list items from position `i` on.
fn write_str_items(v: &Vec<String>, i: usize, p: &str, out: &mut String)
    requires
        i <= v@.len(),
    ensures
        final(out)@ == old(out)@ + spec_render_str_items(
            Seq::new(v@.len(), |k: int| v@[k].view()).subrange(i as int, v@.len() as int),
            p@,
        ),
    decreases v@.len() - i,
{
    let ghost sv = Seq::new(v@.len(), |k: int| v@[k].view());
    if i == v.len() {
        proof {
            assert(out@ =~= old(out)@ + spec_render_str_items(
                sv.subrange(i as int, v@.len() as int),
                p@,
            ));
        }
        return;
    }
    let ghost before = out@;
    out.append(p);
    out.append("- ");
    write_scalar(v[i].as_str(), out);
    out.append("\n");
    proof {
        assert(sv.subrange(i as int, v@.len() as int)[0] == sv[i as int]);
        assert(sv.subrange(i as int, v@.len() as int).drop_first() =~= sv.subrange(
            i + 1,
            v@.len() as int,
        ));
    }
    write_str_items(v, i + 1, p, out);
    proof {
        assert(out@ =~= before + spec_render_str_items(
            sv.subrange(i as int, v@.len() as int),
            p@,
        ));
    }
}

/// Appends the command of a task configuration.
fn write_command(c: &crate::task::Command, p: &str, out: &mut String)
    ensures
        final(out)@ == old(out)@ + spec_render_command(c@, p@),
{
    let ghost before = out@;
    write_field(p, "path: ", c.path.as_str(), out);
    match &c.args {
        None => {}
        Some(a) => {
            if a.len() == 0 {
                write_text(p, "args: []\n", out);
            } else {
                out.append(p);
                out.append("args:\n");
                proof {
                    let sv = Seq::new(a@.len(), |k: int| a@[k].view());
                    assert(sv.subrange(0, a@.len() as int) =~= sv);
                }
                write_str_items(a, 0, p, out);
            }
        }
    }
    proof {
        assert(out@ =~= before + spec_render_command(c@, p@));
    }
}

/// Appends an image resource in its inline form.
fn write_image_resource(r: &crate::resource::Resource, p: &str, out: &mut String)
    ensures
        final(out)@ == old(out)@ + spec_render_image_resource(r@, p@),
{
    let ghost before = out@;
    let tn = r.type_.to_string();
    write_field(p, "type: ", tn.as_str(), out);
    if r.source.is_empty() {
        write_text(p, "source: {}\n", out);
    } else {
        out.append(p);
        out.append("source:\n");
        let deeper = String::from_str(p).concat("  ");
        proof {
            assert(r.source@.subrange(0, r.source@.len() as int) =~= r.source@);
        }
        write_entries(&r.source, 0, deeper.as_str(), out);
    }
    write_version_field(&r.version, p, out);
    proof {
        assert(out@ =~= before + spec_render_image_resource(r@, p@));
    }
}

/// Appends one declared input item.
#[verifier::spinoff_prover]
fn write_input_item(inp: &crate::task::Input, p: &str, out: &mut String)
    ensures
        final(out)@ == old(out)@ + (p@ + "- name: "@ + yaml_scalar(inp@.name) + "\n"@ + (match inp@
            .path {
            None => Seq::<char>::empty(),
            Some(pth) => p@ + "  path: "@ + yaml_scalar(pth) + "\n"@,
        }) + (if inp@.optional {
            p@ + "  optional: true\n"@
        } else {
            Seq::<char>::empty()
        })),
{
    let ghost before = out@;
    out.append(p);
    out.append("- name: ");
    write_scalar(inp.name.as_str(), out);
    out.append("\n");
    match &inp.path {
        None => {}
        Some(pth) => {
            out.append(p);
            out.append("  path: ");
            write_scalar(pth.as_str(), out);
            out.append("\n");
        }
    }
    if inp.optional {
        out.append(p);
        out.append("  optional: true\n");
    }
    proof {
        assert(out@ =~= before + (p@ + "- name: "@ + yaml_scalar(inp@.name) + "\n"@ + (match inp@
            .path {
            None => Seq::<char>::empty(),
            Some(pth) => p@ + "  path: "@ + yaml_scalar(pth) + "\n"@,
        }) + (if inp@.optional {
            p@ + "  optional: true\n"@
        } else {
            Seq::<char>::empty()
        })));
    }
}

/// Appends the declared inputs of a configuration from position `i` on.
#[verifier::rlimit(60)]
#[verifier::spinoff_prover]
fn write_inputs(v: &Vec<crate::task::Input>, i: usize, p: &str, out: &mut String)
    requires
        i <= v@.len(),
    ensures
        final(out)@ == old(out)@ + spec_render_inputs(
            crate::model::inputs_view(v@).subrange(i as int, v@.len() as int),
            p@,
        ),
    decreases v@.len() - i,
{
    let ghost sv = crate::model::inputs_view(v@);
    if i == v.len() {
        proof {
            assert(out@ =~= old(out)@ + spec_render_inputs(
                sv.subrange(i as int, v@.len() as int),
                p@,
            ));
        }
        return;
    }
    let ghost before = out@;
    write_input_item(&v[i], p, out);
    proof {
        assert(sv.subrange(i as int, v@.len() as int)[0] == sv[i as int]);
        assert(sv.subrange(i as int, v@.len() as int).drop_first() =~= sv.subrange(
            i + 1,
            v@.len() as int,
        ));
    }
    write_inputs(v, i + 1, p, out);
    proof {
        assert(out@ =~= before + spec_render_inputs(
            sv.subrange(i as int, v@.len() as int),
            p@,
        ));
    }
}

/// Appends the declared outputs of a configuration from position `i` on.
#[verifier::rlimit(60)]
#[verifier::spinoff_prover]
fn write_outputs(v: &Vec<crate::task::Output>, i: usize, p: &str, out: &mut String)
    requires
        i <= v@.len(),
    ensures
        final(out)@ == old(out)@ + spec_render_outputs(
            crate::model::outputs_view(v@).subrange(i as int, v@.len() as int),
            p@,
        ),
    decreases v@.len() - i,
{
    let ghost sv = crate::model::outputs_view(v@);
    if i == v.len() {
        proof {
            assert(out@ =~= old(out)@ + spec_render_outputs(
                sv.subrange(i as int, v@.len() as int),
                p@,
            ));
        }
        return;
    }
    let ghost before = out@;
    out.append(p);
    out.append("- name: ");
    write_scalar(v[i].name.as_str(), out);
    out.append("\n");
    match &v[i].path {
        None => {}
        Some(pth) => {
            out.append(p);
            out.append("  path: ");
            write_scalar(pth.as_str(), out);
            out.append("\n");
        }
    }
    proof {
        assert(sv.subrange(i as int, v@.len() as int)[0] == sv[i as int]);
        assert(sv.subrange(i as int, v@.len() as int).drop_first() =~= sv.subrange(
            i + 1,
            v@.len() as int,
        ));
    }
    write_outputs(v, i + 1, p, out);
    proof {
        assert(out@ =~= before + spec_render_outputs(
            sv.subrange(i as int, v@.len() as int),
            p@,
        ));
    }
}

/// Appends the head of an inline task configuration: platform, the image
/// resource unless an explicit image overrides it, and the command.
#[verifier::rlimit(60)]
#[verifier::spinoff_prover]
fn write_task_config_head(
    platform: &crate::task::Platform,
    image_resource: &crate::resource::TaskImageResource,
    run: &crate::task::Command,
    p: &str,
    omit_image: bool,
    out: &mut String,
)
    ensures
        final(out)@ == old(out)@ + (p@ + spec_platform_line(platform@)) + (if omit_image {
            Seq::<char>::empty()
        } else {
            p@ + "image_resource:\n"@ + spec_render_image_resource(image_resource@, p@ + "  "@)
        }) + (p@ + "run:\n"@ + spec_render_command(run@, p@ + "  "@)),
{
    let ghost before = out@;
    match platform {
        crate::task::Platform::Linux => write_text(p, "platform: linux\n", out),
        crate::task::Platform::Darwin => write_text(p, "platform: darwin\n", out),
        crate::task::Platform::Windows => write_text(p, "platform: windows\n", out),
    }
    let ghost m1 = out@;
    let deeper = String::from_str(p).concat("  ");
    if !omit_image {
        out.append(p);
        out.append("image_resource:\n");
        write_image_resource(&image_resource.resource, deeper.as_str(), out);
    }
    let ghost m2 = out@;
    proof {
        assert(m2 =~= m1 + (if omit_image {
            Seq::<char>::empty()
        } else {
            p@ + "image_resource:\n"@ + spec_render_image_resource(image_resource@, p@ + "  "@)
        }));
    }
    out.append(p);
    out.append("run:\n");
    write_command(run, deeper.as_str(), out);
    proof {
        assert(out@ =~= m2 + (p@ + "run:\n"@ + spec_render_command(run@, p@ + "  "@)));
        assert(out@ =~= before + (p@ + spec_platform_line(platform@)) + (if omit_image {
            Seq::<char>::empty()
        } else {
            p@ + "image_resource:\n"@ + spec_render_image_resource(image_resource@, p@ + "  "@)
        }) + (p@ + "run:\n"@ + spec_render_command(run@, p@ + "  "@)));
    }
}

/// Appends an inline task configuration.
#[verifier::rlimit(100)]
#[verifier::spinoff_prover]
fn write_task_config(c: &crate::task::TaskConfig, p: &str, omit_image: bool, out: &mut String)
    ensures
        final(out)@ == old(out)@ + spec_render_task_config(c@, p@, omit_image),
{
    let ghost before = out@;
    let ghost piece_platform = p@ + spec_platform_line(c@.platform);
    let ghost piece_image: Seq<char> = if omit_image {
        Seq::empty()
    } else {
        p@ + "image_resource:\n"@ + spec_render_image_resource(c@.image_resource, p@ + "  "@)
    };
    let ghost piece_run = p@ + "run:\n"@ + spec_render_command(c@.run, p@ + "  "@);
    write_task_config_head(&c.platform, &c.image_resource, &c.run, p, omit_image, out);
    let ghost m3 = out@;
    let ghost piece_params = spec_render_map_field("params"@, c@.params, p@);
    write_map_field("params", &c.params, p, out);
    let ghost m4 = out@;
    let ghost piece_inputs: Seq<char> = (match c@.inputs {
        None => Seq::empty(),
        Some(sv) => if sv.len() == 0 {
            p@ + "inputs: []\n"@
        } else {
            p@ + "inputs:\n"@ + spec_render_inputs(sv, p@)
        },
    });
    match &c.inputs {
        None => {
            proof {
                assert(m4 + piece_inputs =~= m4);
            }
        }
        Some(v) => {
            if v.len() == 0 {
                write_text(p, "inputs: []\n", out);
                proof {
                    lemma_grp2(m4, p@, "inputs: []\n"@);
                }
            } else {
                out.append(p);
                out.append("inputs:\n");
                proof {
                    let sv = crate::model::inputs_view(v@);
                    assert(sv.subrange(0, v@.len() as int) =~= sv);
                    assert(c@.inputs == Some(sv));
                }
                write_inputs(v, 0, p, out);
                proof {
                    lemma_grp3(m4, p@, "inputs:\n"@, spec_render_inputs(
                        crate::model::inputs_view(v@),
                        p@,
                    ));
                }
            }
        }
    }
    let ghost m5 = out@;
    proof {
        assert(m5 == m4 + piece_inputs);
    }
    let ghost piece_outputs: Seq<char> = (match c@.outputs {
        None => Seq::empty(),
        Some(sv) => if sv.len() == 0 {
            p@ + "outputs: []\n"@
        } else {
            p@ + "outputs:\n"@ + spec_render_outputs(sv, p@)
        },
    });
    match &c.outputs {
        None => {
            proof {
                assert(m5 + piece_outputs =~= m5);
            }
        }
        Some(v) => {
            if v.len() == 0 {
                write_text(p, "outputs: []\n", out);
                proof {
                    lemma_grp2(m5, p@, "outputs: []\n"@);
                }
            } else {
                out.append(p);
                out.append("outputs:\n");
                proof {
                    let sv = crate::model::outputs_view(v@);
                    assert(sv.subrange(0, v@.len() as int) =~= sv);
                    assert(c@.outputs == Some(sv));
                }
                write_outputs(v, 0, p, out);
                proof {
                    lemma_grp3(m5, p@, "outputs:\n"@, spec_render_outputs(
                        crate::model::outputs_view(v@),
                        p@,
                    ));
                }
            }
        }
    }
    proof {
        assert(out@ == m5 + piece_outputs);
        assert(m4 == before + piece_platform + piece_image + piece_run + piece_params);
        lemma_grp6(
            before,
            piece_platform,
            piece_image,
            piece_run,
            piece_params,
            piece_inputs,
            piece_outputs,
        );
        lemma_task_config_shape(c@, p@, omit_image);
    }
}


/// Regrouping four appended fragments.
proof fn lemma_grp4<A>(base: Seq<A>, a: Seq<A>, b: Seq<A>, c: Seq<A>, d: Seq<A>)
    ensures
        base + a + b + c + d == base + (a + b + c + d),
{
    assert(base + a + b + c + d =~= base + (a + b + c + d));
}

/// Regrouping five appended fragments.
proof fn lemma_grp5<A>(base: Seq<A>, a: Seq<A>, b: Seq<A>, c: Seq<A>, d: Seq<A>, e: Seq<A>)
    ensures
        base + a + b + c + d + e == base + (a + b + c + d + e),
{
    assert(base + a + b + c + d + e =~= base + (a + b + c + d + e));
}

/// Regrouping nine appended fragments.
#[verifier::spinoff_prover]
proof fn lemma_grp9<A>(
    base: Seq<A>,
    a: Seq<A>,
    b: Seq<A>,
    c: Seq<A>,
    d: Seq<A>,
    e: Seq<A>,
    f: Seq<A>,
    g: Seq<A>,
    h: Seq<A>,
    i: Seq<A>,
)
    ensures
        base + a + b + c + d + e + f + g + h + i == base + (a + b + c + d + e + f + g + h + i),
{
    assert(base + a + b + c + d + e + f + g + h + i
        =~= base + (a + b + c + d + e + f + g + h + i));
}

/// The pieces of a rendered fetch step, as units.
#[verifier::spinoff_prover]
proof fn lemma_get_shape(g: crate::model::SpecGet, first: Seq<char>, p: Seq<char>)
    ensures
        spec_render_get(g, first, p) == (first + "get: "@ + yaml_scalar(
            if g.get.len() > 0 {
                g.get
            } else {
                g.resource.name
            },
        ) + "\n"@) + (if g.get.len() > 0 {
            p + "resource: "@ + yaml_scalar(g.resource.name) + "\n"@
        } else {
            Seq::<char>::empty()
        }) + spec_render_version_field(g.version, p) + (if g.trigger {
            p + "trigger: true\n"@
        } else {
            Seq::<char>::empty()
        }) + (match g.passed {
            None => Seq::<char>::empty(),
            Some(js) => p + "passed:\n"@ + spec_render_passed(js, p),
        }),
{
    assert(spec_render_get(g, first, p) =~= (first + "get: "@ + yaml_scalar(
        if g.get.len() > 0 {
            g.get
        } else {
            g.resource.name
        },
    ) + "\n"@) + (if g.get.len() > 0 {
        p + "resource: "@ + yaml_scalar(g.resource.name) + "\n"@
    } else {
        Seq::<char>::empty()
    }) + spec_render_version_field(g.version, p) + (if g.trigger {
        p + "trigger: true\n"@
    } else {
        Seq::<char>::empty()
    }) + (match g.passed {
        None => Seq::<char>::empty(),
        Some(js) => p + "passed:\n"@ + spec_render_passed(js, p),
    }));
}

/// Appends a fetch step.
#[verifier::rlimit(100)]
#[verifier::spinoff_prover]
fn write_get(g: &crate::get::Get, first: &str, p: &str, out: &mut String)
    ensures
        final(out)@ == old(out)@ + spec_render_get(g@, first@, p@),
{
    let ghost before = out@;
    let aliased = g.get.unicode_len() > 0;
    let ghost piece_title = first@ + "get: "@ + yaml_scalar(
        if g@.get.len() > 0 {
            g@.get
        } else {
            g@.resource.name
        },
    ) + "\n"@;
    if aliased {
        write_field(first, "get: ", g.get.as_str(), out);
    } else {
        write_field(first, "get: ", g.resource.name.as_str(), out);
    }
    let ghost m1 = out@;
    proof {
        assert(m1 == before + piece_title);
    }
    let ghost piece_res: Seq<char> = if g@.get.len() > 0 {
        p@ + "resource: "@ + yaml_scalar(g@.resource.name) + "\n"@
    } else {
        Seq::empty()
    };
    if aliased {
        write_field(p, "resource: ", g.resource.name.as_str(), out);
    } else {
        proof {
            assert(m1 + piece_res =~= m1);
        }
    }
    let ghost m2 = out@;
    proof {
        assert(m2 == m1 + piece_res);
    }
    write_version_field(&g.version, p, out);
    let ghost m3 = out@;
    let ghost piece_trigger: Seq<char> = if g@.trigger {
        p@ + "trigger: true\n"@
    } else {
        Seq::empty()
    };
    if g.trigger {
        write_text(p, "trigger: true\n", out);
        proof {
            lemma_grp2(m3, p@, "trigger: true\n"@);
        }
    } else {
        proof {
            assert(m3 + piece_trigger =~= m3);
        }
    }
    let ghost m4 = out@;
    let ghost piece_passed: Seq<char> = (match g@.passed {
        None => Seq::empty(),
        Some(js) => p@ + "passed:\n"@ + spec_render_passed(js, p@),
    });
    match &g.passed {
        None => {
            proof {
                assert(m4 + piece_passed =~= m4);
            }
        }
        Some(js) => {
            out.append(p);
            out.append("passed:\n");
            proof {
                let jv = crate::model::jobs_view(js@);
                crate::model::lemma_jobs_view_len(js@);
                assert(jv.subrange(0, js@.len() as int) =~= jv);
            }
            write_passed(js, 0, p, out);
            proof {
                lemma_grp3(m4, p@, "passed:\n"@, spec_render_passed(
                    crate::model::jobs_view(js@),
                    p@,
                ));
            }
        }
    }
    proof {
        assert(out@ == m4 + piece_passed);
        lemma_grp5(
            before,
            piece_title,
            piece_res,
            spec_render_version_field(g@.version, p@),
            piece_trigger,
            piece_passed,
        );
        lemma_get_shape(g@, first@, p@);
    }
}

/// Appends a publish step.
#[verifier::rlimit(100)]
#[verifier::spinoff_prover]
fn write_put(pt: &crate::put::Put, first: &str, p: &str, out: &mut String)
    ensures
        final(out)@ == old(out)@ + spec_render_put(pt@, first@, p@),
{
    let ghost before = out@;
    let aliased = pt.put.unicode_len() > 0;
    if aliased {
        write_field(first, "put: ", pt.put.as_str(), out);
    } else {
        write_field(first, "put: ", pt.resource.name.as_str(), out);
    }
    let ghost m1 = out@;
    let ghost piece_title = first@ + "put: "@ + yaml_scalar(
        if pt@.put.len() > 0 {
            pt@.put
        } else {
            pt@.resource.name
        },
    ) + "\n"@;
    proof {
        assert(m1 == before + piece_title);
    }
    let ghost piece_res: Seq<char> = if pt@.put.len() > 0 {
        p@ + "resource: "@ + yaml_scalar(pt@.resource.name) + "\n"@
    } else {
        Seq::empty()
    };
    if aliased {
        write_field(p, "resource: ", pt.resource.name.as_str(), out);
    } else {
        proof {
            assert(m1 + piece_res =~= m1);
        }
    }
    let ghost m2 = out@;
    let ghost piece_params: Seq<char> = if pt@.params.len() > 0 {
        p@ + "params:\n"@ + spec_render_entries(pt@.params, p@ + "  "@)
    } else {
        Seq::empty()
    };
    if !pt.params.is_empty() {
        out.append(p);
        out.append("params:\n");
        let deeper = String::from_str(p).concat("  ");
        proof {
            assert(pt.params@.subrange(0, pt.params@.len() as int) =~= pt.params@);
        }
        write_entries(&pt.params, 0, deeper.as_str(), out);
        proof {
            lemma_grp3(m2, p@, "params:\n"@, spec_render_entries(pt@.params, p@ + "  "@));
        }
    } else {
        proof {
            assert(m2 + piece_params =~= m2);
        }
    }
    proof {
        assert(out@ == m2 + piece_params);
        lemma_grp3(before, piece_title, piece_res, piece_params);
        assert(spec_render_put(pt@, first@, p@) =~= piece_title + piece_res + piece_params);
    }
}


/// The error value for a tree the renderer does not emit.
fn render_refused() -> (e: Errors)
    ensures
        e matches Errors::RenderError(m) && m@ == render_refused_message(),
{
    Errors::RenderError(String::from_str("Cannot render the configuration form of in_parallel"))
}

/// The pieces of a rendered task step, as units.
#[verifier::spinoff_prover]
proof fn lemma_task_shape(t: crate::model::SpecTask, first: Seq<char>, p: Seq<char>)
    ensures
        spec_render_task(t, first, p) == (first + "task: "@ + yaml_scalar(t.task) + "\n"@) + (
        match t.task_def {
            crate::model::SpecTaskDef::Config { config } => p + "config:\n"@
                + spec_render_task_config(config, p + "  "@, t.image is Some),
            crate::model::SpecTaskDef::File { file } => p + "file: "@ + yaml_scalar(file) + "\n"@,
        }) + (match t.image {
            None => Seq::<char>::empty(),
            Some(img) => p + "image: "@ + yaml_scalar(img.name) + "\n"@,
        }) + (if t.priviledged {
            p + "privileged: true\n"@
        } else {
            Seq::<char>::empty()
        }) + spec_render_map_field("input_mapping"@, t.input_mapping, p) + spec_render_map_field(
            "output_mapping"@,
            t.output_mapping,
            p,
        ) + spec_render_hook("on_failure"@, t.on_failure, p) + spec_render_hook(
            "on_abort"@,
            t.on_abort,
            p,
        ) + spec_render_hook("on_success"@, t.on_success, p),
{
    assert(spec_render_task(t, first, p) =~= (first + "task: "@ + yaml_scalar(t.task) + "\n"@) + (
    match t.task_def {
        crate::model::SpecTaskDef::Config { config } => p + "config:\n"@
            + spec_render_task_config(config, p + "  "@, t.image is Some),
        crate::model::SpecTaskDef::File { file } => p + "file: "@ + yaml_scalar(file) + "\n"@,
    }) + (match t.image {
        None => Seq::<char>::empty(),
        Some(img) => p + "image: "@ + yaml_scalar(img.name) + "\n"@,
    }) + (if t.priviledged {
        p + "privileged: true\n"@
    } else {
        Seq::<char>::empty()
    }) + spec_render_map_field("input_mapping"@, t.input_mapping, p) + spec_render_map_field(
        "output_mapping"@,
        t.output_mapping,
        p,
    ) + spec_render_hook("on_failure"@, t.on_failure, p) + spec_render_hook(
        "on_abort"@,
        t.on_abort,
        p,
    ) + spec_render_hook("on_success"@, t.on_success, p));
}

/// Appends a task-level hook under its key.
#[verifier::rlimit(60)]
#[verifier::spinoff_prover]
fn write_task_hook(keyword: &str, h: &Option<Box<crate::step::Step>>, p: &str, out: &mut String) -> (r:
    Result<(), Errors>)
    ensures
        r is Ok <==> !hook_has_cfg_parallel(crate::model::hook_view(*h)),
        r matches Err(e) ==> e matches Errors::RenderError(m) && m@ == render_refused_message(),
        r is Ok ==> final(out)@ == old(out)@ + spec_render_hook(
            keyword@,
            crate::model::hook_view(*h),
            p@,
        ),
    decreases *h,
{
    let ghost before = out@;
    match h {
        None => {
            proof {
                assert(before + spec_render_hook(keyword@, crate::model::hook_view(*h), p@)
                    =~= before);
            }
            Ok(())
        }
        Some(b) => {
            out.append(p);
            out.append(keyword);
            out.append(":\n");
            let deeper = String::from_str(p).concat("  ");
            let res = render_step(&**b, deeper.as_str(), deeper.as_str(), out);
            match res {
                Ok(_) => {
                    proof {
                        lemma_grp4(before, p@, keyword@, ":\n"@, spec_render_step(
                            crate::model::step_view(**b),
                            p@ + "  "@,
                            p@ + "  "@,
                        ));
                    }
                    Ok(())
                }
                Err(e) => Err(e),
            }
        }
    }
}

/// Appends a job-level hook under its key.
#[verifier::rlimit(60)]
#[verifier::spinoff_prover]
fn write_job_hook(keyword: &str, h: &Option<crate::step::Step>, p: &str, out: &mut String) -> (r:
    Result<(), Errors>)
    ensures
        r is Ok <==> !hook_has_cfg_parallel(crate::model::job_hook_view(*h)),
        r matches Err(e) ==> e matches Errors::RenderError(m) && m@ == render_refused_message(),
        r is Ok ==> final(out)@ == old(out)@ + spec_render_hook(
            keyword@,
            crate::model::job_hook_view(*h),
            p@,
        ),
    decreases *h,
{
    let ghost before = out@;
    match h {
        None => {
            proof {
                assert(before + spec_render_hook(keyword@, crate::model::job_hook_view(*h), p@)
                    =~= before);
            }
            Ok(())
        }
        Some(s) => {
            out.append(p);
            out.append(keyword);
            out.append(":\n");
            let deeper = String::from_str(p).concat("  ");
            let res = render_step(s, deeper.as_str(), deeper.as_str(), out);
            match res {
                Ok(_) => {
                    proof {
                        lemma_grp4(before, p@, keyword@, ":\n"@, spec_render_step(
                            crate::model::step_view(*s),
                            p@ + "  "@,
                            p@ + "  "@,
                        ));
                    }
                    Ok(())
                }
                Err(e) => Err(e),
            }
        }
    }
}

/// Appends a task step's own fields: title, definition, image, privileged
/// flag and name mappings.
#[verifier::rlimit(100)]
#[verifier::spinoff_prover]
fn write_task_meta(t: &crate::task::Task, first: &str, p: &str, out: &mut String)
    ensures
        final(out)@ == old(out)@ + (first@ + "task: "@ + yaml_scalar(t@.task) + "\n"@) + (
        match t@.task_def {
            crate::model::SpecTaskDef::Config { config } => p@ + "config:\n"@
                + spec_render_task_config(config, p@ + "  "@, t@.image is Some),
            crate::model::SpecTaskDef::File { file } => p@ + "file: "@ + yaml_scalar(file) + "\n"@,
        }) + (match t@.image {
            None => Seq::<char>::empty(),
            Some(img) => p@ + "image: "@ + yaml_scalar(img.name) + "\n"@,
        }) + (if t@.priviledged {
            p@ + "privileged: true\n"@
        } else {
            Seq::<char>::empty()
        }) + spec_render_map_field("input_mapping"@, t@.input_mapping, p@) + spec_render_map_field(
            "output_mapping"@,
            t@.output_mapping,
            p@,
        ),
{
    let ghost before = out@;
    write_field(first, "task: ", t.task.as_str(), out);
    let ghost m1 = out@;
    let ghost piece_title = first@ + "task: "@ + yaml_scalar(t@.task) + "\n"@;
    proof {
        assert(m1 == before + piece_title);
    }
    let ghost piece_def: Seq<char> = (match t@.task_def {
        crate::model::SpecTaskDef::Config { config } => p@ + "config:\n"@
            + spec_render_task_config(config, p@ + "  "@, t@.image is Some),
        crate::model::SpecTaskDef::File { file } => p@ + "file: "@ + yaml_scalar(file) + "\n"@,
    });
    let has_image = match &t.image {
        Some(_) => true,
        None => false,
    };
    match &t.task_def {
        crate::task::TaskDef::Config { config } => {
            out.append(p);
            out.append("config:\n");
            let deeper = String::from_str(p).concat("  ");
            write_task_config(config, deeper.as_str(), has_image, out);
            proof {
                lemma_grp3(m1, p@, "config:\n"@, spec_render_task_config(
                    config@,
                    p@ + "  "@,
                    t@.image is Some,
                ));
            }
        }
        crate::task::TaskDef::File { file } => {
            write_field(p, "file: ", file.as_str(), out);
            proof {
                lemma_grp4(m1, p@, "file: "@, yaml_scalar(file@), "\n"@);
            }
        }
    }
    let ghost m2 = out@;
    proof {
        assert(m2 == m1 + piece_def);
    }
    let ghost piece_image: Seq<char> = (match t@.image {
        None => Seq::empty(),
        Some(img) => p@ + "image: "@ + yaml_scalar(img.name) + "\n"@,
    });
    match &t.image {
        None => {
            proof {
                assert(m2 + piece_image =~= m2);
            }
        }
        Some(img) => {
            write_field(p, "image: ", img.resource.name.as_str(), out);
            proof {
                lemma_grp4(m2, p@, "image: "@, yaml_scalar(img.resource.name@), "\n"@);
            }
        }
    }
    let ghost m3 = out@;
    proof {
        assert(m3 == m2 + piece_image);
    }
    let ghost piece_priv: Seq<char> = if t@.priviledged {
        p@ + "privileged: true\n"@
    } else {
        Seq::empty()
    };
    if t.priviledged {
        write_text(p, "privileged: true\n", out);
        proof {
            lemma_grp2(m3, p@, "privileged: true\n"@);
        }
    } else {
        proof {
            assert(m3 + piece_priv =~= m3);
        }
    }
    write_map_field("input_mapping", &t.input_mapping, p, out);
    write_map_field("output_mapping", &t.output_mapping, p, out);
}

/// Appends a task step.
#[verifier::rlimit(100)]
#[verifier::spinoff_prover]
fn write_task(t: &crate::task::Task, first: &str, p: &str, out: &mut String) -> (r: Result<
    (),
    Errors,
>)
    ensures
        r is Ok <==> !step_has_cfg_parallel(crate::model::SpecStep::Task(t@)),
        r matches Err(e) ==> e matches Errors::RenderError(m) && m@ == render_refused_message(),
        r is Ok ==> final(out)@ == old(out)@ + spec_render_task(t@, first@, p@),
    decreases *t,
{
    let ghost before = out@;
    let ghost meta_piece = (first@ + "task: "@ + yaml_scalar(t@.task) + "\n"@) + (
    match t@.task_def {
        crate::model::SpecTaskDef::Config { config } => p@ + "config:\n"@
            + spec_render_task_config(config, p@ + "  "@, t@.image is Some),
        crate::model::SpecTaskDef::File { file } => p@ + "file: "@ + yaml_scalar(file) + "\n"@,
    }) + (match t@.image {
        None => Seq::<char>::empty(),
        Some(img) => p@ + "image: "@ + yaml_scalar(img.name) + "\n"@,
    }) + (if t@.priviledged {
        p@ + "privileged: true\n"@
    } else {
        Seq::<char>::empty()
    }) + spec_render_map_field("input_mapping"@, t@.input_mapping, p@) + spec_render_map_field(
        "output_mapping"@,
        t@.output_mapping,
        p@,
    );
    write_task_meta(t, first, p, out);
    proof {
        assert(out@ == before + meta_piece);
    }
    let res = write_task_hook("on_failure", &t.on_failure, p, out);
    if res.is_err() {
        return res;
    }
    let res = write_task_hook("on_abort", &t.on_abort, p, out);
    if res.is_err() {
        return res;
    }
    let res = write_task_hook("on_success", &t.on_success, p, out);
    if res.is_err() {
        return res;
    }
    proof {
        lemma_grp4(
            before,
            meta_piece,
            spec_render_hook("on_failure"@, t@.on_failure, p@),
            spec_render_hook("on_abort"@, t@.on_abort, p@),
            spec_render_hook("on_success"@, t@.on_success, p@),
        );
        lemma_task_shape(t@, first@, p@);
    }
    Ok(())
}

/// Appends one step.
#[verifier::rlimit(100)]
#[verifier::spinoff_prover]
fn render_step(s: &crate::step::Step, first: &str, p: &str, out: &mut String) -> (r: Result<
    (),
    Errors,
>)
    ensures
        r is Ok <==> !step_has_cfg_parallel(s@),
        r matches Err(e) ==> e matches Errors::RenderError(m) && m@ == render_refused_message(),
        r is Ok ==> final(out)@ == old(out)@ + spec_render_step(s@, first@, p@),
    decreases *s,
{
    let ghost before = out@;
    match s {
        crate::step::Step::Get(g) => {
            proof {
                assert(s@ == crate::model::SpecStep::Get(crate::model::get_view(*g)));
                assert(!step_has_cfg_parallel(s@));
            }
            write_get(g, first, p, out);
            Ok(())
        }
        crate::step::Step::Put(pt) => {
            proof {
                assert(s@ == crate::model::SpecStep::Put(crate::model::put_view(*pt)));
                assert(!step_has_cfg_parallel(s@));
            }
            write_put(pt, first, p, out);
            Ok(())
        }
        crate::step::Step::Task(t) => {
            proof {
                assert(s@ == crate::model::SpecStep::Task(crate::model::task_view(*t)));
            }
            let res = write_task(t, first, p, out);
            proof {
                assert(step_has_cfg_parallel(s@) == step_has_cfg_parallel(
                    crate::model::SpecStep::Task(t@),
                ));
            }
            res
        }
        crate::step::Step::Try(tr) => {
            proof {
                assert(s@ == crate::model::SpecStep::Try(Box::new(crate::model::step_view(
                    *tr.try_,
                ))));
            }
            out.append(first);
            out.append("try:\n");
            let deeper = String::from_str(p).concat("  ");
            let res = render_step(&*tr.try_, deeper.as_str(), deeper.as_str(), out);
            match res {
                Ok(_) => {
                    proof {
                        lemma_grp3(before, first@, "try:\n"@, spec_render_step(
                            crate::model::step_view(*tr.try_),
                            p@ + "  "@,
                            p@ + "  "@,
                        ));
                        assert(!step_has_cfg_parallel(s@));
                    }
                    Ok(())
                }
                Err(e) => {
                    proof {
                        assert(step_has_cfg_parallel(s@));
                    }
                    Err(e)
                }
            }
        }
        crate::step::Step::InParallel(ip) => {
            match ip {
                crate::step::InParallel::Steps(children) => {
                    let ghost cv = crate::model::steps_view(children@);
                    proof {
                        crate::model::lemma_steps_view_len(children@);
                        assert(s@ == crate::model::SpecStep::InParallel(
                            crate::model::in_parallel_view(*ip),
                        ));
                        assert(crate::model::in_parallel_view(*ip)
                            == crate::model::SpecInParallel::Steps(cv));
                    }
                    if children.len() == 0 {
                        write_text(first, "in_parallel: []\n", out);
                        proof {
                            lemma_grp2(before, first@, "in_parallel: []\n"@);
                            assert(!steps_have_cfg_parallel(cv));
                            assert(!step_has_cfg_parallel(s@));
                        }
                        Ok(())
                    } else {
                        out.append(first);
                        out.append("in_parallel:\n");
                        let dash = String::from_str(p).concat("- ");
                        let deeper = String::from_str(p).concat("  ");
                        proof {
                            assert(cv.subrange(0, children@.len() as int) =~= cv);
                        }
                        let res = render_steps(children, 0, dash.as_str(), deeper.as_str(), out);
                        match res {
                            Ok(_) => {
                                proof {
                                    lemma_grp3(before, first@, "in_parallel:\n"@,
                                        spec_render_steps(cv, p@ + "- "@, p@ + "  "@));
                                    assert(!steps_have_cfg_parallel(cv));
                                    assert(!step_has_cfg_parallel(s@));
                                }
                                Ok(())
                            }
                            Err(e) => {
                                proof {
                                    assert(steps_have_cfg_parallel(cv));
                                    assert(step_has_cfg_parallel(s@));
                                }
                                Err(e)
                            }
                        }
                    }
                }
                crate::step::InParallel::InParallelConfig { .. } => {
                    proof {
                        assert(s@ == crate::model::SpecStep::InParallel(
                            crate::model::in_parallel_view(*ip),
                        ));
                        assert(step_has_cfg_parallel(s@));
                    }
                    Err(render_refused())
                }
            }
        }
    }
}

/// Appends the steps of a sequence from position `i` on, one item each.
#[verifier::rlimit(60)]
#[verifier::spinoff_prover]
fn render_steps(v: &Vec<crate::step::Step>, i: usize, first: &str, p: &str, out: &mut String) -> (r:
    Result<(), Errors>)
    requires
        i <= v@.len(),
    ensures
        r is Ok <==> !steps_have_cfg_parallel(
            crate::model::steps_view(v@).subrange(i as int, v@.len() as int),
        ),
        r matches Err(e) ==> e matches Errors::RenderError(m) && m@ == render_refused_message(),
        r is Ok ==> final(out)@ == old(out)@ + spec_render_steps(
            crate::model::steps_view(v@).subrange(i as int, v@.len() as int),
            first@,
            p@,
        ),
    decreases *v, v@.len() - i,
{
    let ghost sv = crate::model::steps_view(v@);
    proof {
        crate::model::lemma_steps_view_len(v@);
    }
    if i == v.len() {
        proof {
            assert(out@ =~= old(out)@ + spec_render_steps(
                sv.subrange(i as int, v@.len() as int),
                first@,
                p@,
            ));
        }
        return Ok(());
    }
    let ghost before = out@;
    proof {
        assert(sv.subrange(i as int, v@.len() as int)[0] == sv[i as int]);
        assert(sv.subrange(i as int, v@.len() as int).drop_first() =~= sv.subrange(
            i + 1,
            v@.len() as int,
        ));
    }
    let res = render_step(&v[i], first, p, out);
    match res {
        Ok(_) => {
            let res2 = render_steps(v, i + 1, first, p, out);
            match res2 {
                Ok(_) => {
                    proof {
                        assert(out@ == before + spec_render_step(sv[i as int], first@, p@)
                            + spec_render_steps(sv.subrange(i + 1, v@.len() as int), first@, p@));
                        lemma_grp2(
                            before,
                            spec_render_step(sv[i as int], first@, p@),
                            spec_render_steps(sv.subrange(i + 1, v@.len() as int), first@, p@),
                        );
                    }
                    Ok(())
                }
                Err(e) => Err(e),
            }
        }
        Err(e) => Err(e),
    }
}


/// The pieces of a rendered job, as units.
#[verifier::spinoff_prover]
proof fn lemma_job_shape(j: crate::model::SpecJob, first: Seq<char>, p: Seq<char>)
    ensures
        spec_render_job(j, first, p) == (first + "name: "@ + yaml_scalar(j.name) + "\n"@)
            + spec_render_bool_field("public"@, j.public, p) + spec_render_bool_field(
            "serial"@,
            j.serial,
            p,
        ) + (if j.plan.len() == 0 {
            p + "plan: []\n"@
        } else {
            p + "plan:\n"@ + spec_render_steps(j.plan, p + "- "@, p + "  "@)
        }) + spec_render_hook("on_failure"@, j.on_failure, p) + spec_render_hook(
            "on_error"@,
            j.on_error,
            p,
        ) + spec_render_hook("on_abort"@, j.on_abort, p) + spec_render_hook(
            "on_success"@,
            j.on_success,
            p,
        ) + spec_render_hook("ensure"@, j.ensure, p),
{
    assert(spec_render_job(j, first, p) =~= (first + "name: "@ + yaml_scalar(j.name) + "\n"@)
        + spec_render_bool_field("public"@, j.public, p) + spec_render_bool_field(
        "serial"@,
        j.serial,
        p,
    ) + (if j.plan.len() == 0 {
        p + "plan: []\n"@
    } else {
        p + "plan:\n"@ + spec_render_steps(j.plan, p + "- "@, p + "  "@)
    }) + spec_render_hook("on_failure"@, j.on_failure, p) + spec_render_hook(
        "on_error"@,
        j.on_error,
        p,
    ) + spec_render_hook("on_abort"@, j.on_abort, p) + spec_render_hook(
        "on_success"@,
        j.on_success,
        p,
    ) + spec_render_hook("ensure"@, j.ensure, p));
}

/// Appends one job.
#[verifier::rlimit(100)]
#[verifier::spinoff_prover]
fn render_job(j: &crate::job::Job, first: &str, p: &str, out: &mut String) -> (r: Result<
    (),
    Errors,
>)
    ensures
        r is Ok <==> !job_has_cfg_parallel(j@),
        r matches Err(e) ==> e matches Errors::RenderError(m) && m@ == render_refused_message(),
        r is Ok ==> final(out)@ == old(out)@ + spec_render_job(j@, first@, p@),
    decreases *j,
{
    let ghost before = out@;
    write_field(first, "name: ", j.name.as_str(), out);
    let ghost m1 = out@;
    let ghost piece_title = first@ + "name: "@ + yaml_scalar(j@.name) + "\n"@;
    proof {
        assert(m1 == before + piece_title);
    }
    write_bool_field("public", &j.public, p, out);
    write_bool_field("serial", &j.serial, p, out);
    let ghost m3 = out@;
    let ghost piece_plan: Seq<char> = if j@.plan.len() == 0 {
        p@ + "plan: []\n"@
    } else {
        p@ + "plan:\n"@ + spec_render_steps(j@.plan, p@ + "- "@, p@ + "  "@)
    };
    let ghost pv = crate::model::steps_view(j.plan@);
    proof {
        crate::model::lemma_steps_view_len(j.plan@);
    }
    if j.plan.len() == 0 {
        write_text(p, "plan: []\n", out);
        proof {
            lemma_grp2(m3, p@, "plan: []\n"@);
        }
    } else {
        out.append(p);
        out.append("plan:\n");
        let dash = String::from_str(p).concat("- ");
        let deeper = String::from_str(p).concat("  ");
        proof {
            assert(pv.subrange(0, j.plan@.len() as int) =~= pv);
        }
        let res = render_steps(&j.plan, 0, dash.as_str(), deeper.as_str(), out);
        match res {
            Ok(_) => {
                proof {
                    lemma_grp3(m3, p@, "plan:\n"@, spec_render_steps(pv, p@ + "- "@, p@ + "  "@));
                }
            }
            Err(e) => {
                proof {
                    assert(steps_have_cfg_parallel(j@.plan));
                }
                return Err(e);
            }
        }
    }
    proof {
        assert(out@ == m3 + piece_plan);
        assert(!steps_have_cfg_parallel(j@.plan));
    }
    let res = write_job_hook("on_failure", &j.on_failure, p, out);
    if res.is_err() {
        return res;
    }
    let res = write_job_hook("on_error", &j.on_error, p, out);
    if res.is_err() {
        return res;
    }
    let res = write_job_hook("on_abort", &j.on_abort, p, out);
    if res.is_err() {
        return res;
    }
    let res = write_job_hook("on_success", &j.on_success, p, out);
    if res.is_err() {
        return res;
    }
    let res = write_job_hook("ensure", &j.ensure, p, out);
    if res.is_err() {
        return res;
    }
    proof {
        lemma_grp9(
            before,
            piece_title,
            spec_render_bool_field("public"@, j@.public, p@),
            spec_render_bool_field("serial"@, j@.serial, p@),
            piece_plan,
            spec_render_hook("on_failure"@, j@.on_failure, p@),
            spec_render_hook("on_error"@, j@.on_error, p@),
            spec_render_hook("on_abort"@, j@.on_abort, p@),
            spec_render_hook("on_success"@, j@.on_success, p@),
            spec_render_hook("ensure"@, j@.ensure, p@),
        );
        lemma_job_shape(j@, first@, p@);
    }
    Ok(())
}

/// Appends the jobs from position `i` on, one item each.
#[verifier::rlimit(60)]
#[verifier::spinoff_prover]
fn render_jobs(v: &Vec<crate::job::Job>, i: usize, first: &str, p: &str, out: &mut String) -> (r:
    Result<(), Errors>)
    requires
        i <= v@.len(),
    ensures
        r is Ok <==> !jobs_have_cfg_parallel(
            crate::model::jobs_view(v@).subrange(i as int, v@.len() as int),
        ),
        r matches Err(e) ==> e matches Errors::RenderError(m) && m@ == render_refused_message(),
        r is Ok ==> final(out)@ == old(out)@ + spec_render_jobs(
            crate::model::jobs_view(v@).subrange(i as int, v@.len() as int),
            first@,
            p@,
        ),
    decreases v@.len() - i,
{
    let ghost jv = crate::model::jobs_view(v@);
    proof {
        crate::model::lemma_jobs_view_len(v@);
    }
    if i == v.len() {
        proof {
            assert(out@ =~= old(out)@ + spec_render_jobs(
                jv.subrange(i as int, v@.len() as int),
                first@,
                p@,
            ));
        }
        return Ok(());
    }
    let ghost before = out@;
    proof {
        assert(jv.subrange(i as int, v@.len() as int)[0] == jv[i as int]);
        assert(jv.subrange(i as int, v@.len() as int).drop_first() =~= jv.subrange(
            i + 1,
            v@.len() as int,
        ));
    }
    let res = render_job(&v[i], first, p, out);
    match res {
        Ok(_) => {
            let res2 = render_jobs(v, i + 1, first, p, out);
            match res2 {
                Ok(_) => {
                    proof {
                        lemma_grp2(
                            before,
                            spec_render_job(jv[i as int], first@, p@),
                            spec_render_jobs(jv.subrange(i + 1, v@.len() as int), first@, p@),
                        );
                    }
                    Ok(())
                }
                Err(e) => Err(e),
            }
        }
        Err(e) => Err(e),
    }
}

/// The pieces of a rendered resource declaration, as units.
#[verifier::spinoff_prover]
proof fn lemma_resource_shape(r: crate::model::SpecResource, first: Seq<char>, p: Seq<char>)
    ensures
        spec_render_resource(r, first, p) == (first + "name: "@ + yaml_scalar(r.name) + "\n"@) + (
        p + "type: "@ + yaml_scalar(r.typ.rendered_name()) + "\n"@) + (match r.icon {
            None => Seq::<char>::empty(),
            Some(ic) => p + "icon: "@ + yaml_scalar(ic) + "\n"@,
        }) + (if r.source.len() > 0 {
            p + "source:\n"@ + spec_render_entries(r.source, p + "  "@)
        } else {
            Seq::<char>::empty()
        }) + spec_render_version_field(r.version, p),
{
    assert(spec_render_resource(r, first, p) =~= (first + "name: "@ + yaml_scalar(r.name) + "\n"@)
        + (p + "type: "@ + yaml_scalar(r.typ.rendered_name()) + "\n"@) + (match r.icon {
        None => Seq::<char>::empty(),
        Some(ic) => p + "icon: "@ + yaml_scalar(ic) + "\n"@,
    }) + (if r.source.len() > 0 {
        p + "source:\n"@ + spec_render_entries(r.source, p + "  "@)
    } else {
        Seq::<char>::empty()
    }) + spec_render_version_field(r.version, p));
}

/// Appends one resource declaration.
#[verifier::rlimit(100)]
#[verifier::spinoff_prover]
fn write_resource(r: &crate::resource::Resource, first: &str, p: &str, out: &mut String)
    ensures
        final(out)@ == old(out)@ + spec_render_resource(r@, first@, p@),
{
    let ghost before = out@;
    write_field(first, "name: ", r.name.as_str(), out);
    let ghost m1 = out@;
    let ghost piece_title = first@ + "name: "@ + yaml_scalar(r@.name) + "\n"@;
    proof {
        assert(m1 == before + piece_title);
    }
    let tn = r.type_.to_string();
    write_field(p, "type: ", tn.as_str(), out);
    let ghost m2 = out@;
    let ghost piece_type = p@ + "type: "@ + yaml_scalar(r@.typ.rendered_name()) + "\n"@;
    proof {
        assert(m2 == m1 + piece_type);
    }
    let ghost piece_icon: Seq<char> = (match r@.icon {
        None => Seq::empty(),
        Some(ic) => p@ + "icon: "@ + yaml_scalar(ic) + "\n"@,
    });
    match &r.icon {
        None => {
            proof {
                assert(m2 + piece_icon =~= m2);
            }
        }
        Some(ic) => {
            write_field(p, "icon: ", ic.as_str(), out);
            proof {
                lemma_grp4(m2, p@, "icon: "@, yaml_scalar(ic@), "\n"@);
            }
        }
    }
    let ghost m3 = out@;
    proof {
        assert(m3 == m2 + piece_icon);
    }
    let ghost piece_source: Seq<char> = if r@.source.len() > 0 {
        p@ + "source:\n"@ + spec_render_entries(r@.source, p@ + "  "@)
    } else {
        Seq::empty()
    };
    if !r.source.is_empty() {
        out.append(p);
        out.append("source:\n");
        let deeper = String::from_str(p).concat("  ");
        proof {
            assert(r.source@.subrange(0, r.source@.len() as int) =~= r.source@);
        }
        write_entries(&r.source, 0, deeper.as_str(), out);
        proof {
            lemma_grp3(m3, p@, "source:\n"@, spec_render_entries(r@.source, p@ + "  "@));
        }
    } else {
        proof {
            assert(m3 + piece_source =~= m3);
        }
    }
    write_version_field(&r.version, p, out);
    proof {
        lemma_grp5(
            before,
            piece_title,
            piece_type,
            piece_icon,
            piece_source,
            spec_render_version_field(r@.version, p@),
        );
        lemma_resource_shape(r@, first@, p@);
    }
}

/// Appends the resource declarations from position `i` on.
#[verifier::rlimit(60)]
#[verifier::spinoff_prover]
fn write_resources(v: &Vec<crate::resource::Resource>, i: usize, first: &str, p: &str, out: &mut String)
    requires
        i <= v@.len(),
    ensures
        final(out)@ == old(out)@ + spec_render_resources(
            Seq::new(v@.len(), |k: int| v@[k].view()).subrange(i as int, v@.len() as int),
            first@,
            p@,
        ),
    decreases v@.len() - i,
{
    let ghost rv = Seq::new(v@.len(), |k: int| v@[k].view());
    if i == v.len() {
        proof {
            assert(out@ =~= old(out)@ + spec_render_resources(
                rv.subrange(i as int, v@.len() as int),
                first@,
                p@,
            ));
        }
        return;
    }
    let ghost before = out@;
    proof {
        assert(rv.subrange(i as int, v@.len() as int)[0] == rv[i as int]);
        assert(rv.subrange(i as int, v@.len() as int).drop_first() =~= rv.subrange(
            i + 1,
            v@.len() as int,
        ));
    }
    write_resource(&v[i], first, p, out);
    write_resources(v, i + 1, first, p, out);
    proof {
        lemma_grp2(
            before,
            spec_render_resource(rv[i as int], first@, p@),
            spec_render_resources(rv.subrange(i + 1, v@.len() as int), first@, p@),
        );
    }
}

/// Appends one resource type declaration.
#[verifier::rlimit(100)]
#[verifier::spinoff_prover]
fn write_resource_type(t: &crate::resource::ResourceTypes, first: &str, p: &str, out: &mut String)
    ensures
        final(out)@ == old(out)@ + spec_render_resource_type(t@, first@, p@),
{
    let ghost before = out@;
    let tn = t.to_string();
    write_field(first, "name: ", tn.as_str(), out);
    let ghost m1 = out@;
    let ghost piece_title = first@ + "name: "@ + yaml_scalar(t@.rendered_name()) + "\n"@;
    proof {
        assert(m1 == before + piece_title);
    }
    match t {
        crate::resource::ResourceTypes::Custom { type_, source, params, .. } => {
            let bn = type_.to_string();
            write_field(p, "type: ", bn.as_str(), out);
            let ghost m2 = out@;
            let ghost piece_base = p@ + "type: "@ + yaml_scalar(crate::model::resource_types_view(
                **type_,
            ).rendered_name()) + "\n"@;
            proof {
                assert(m2 == m1 + piece_base);
            }
            let ghost piece_source: Seq<char> = if source@.len() > 0 {
                p@ + "source:\n"@ + spec_render_entries(source@, p@ + "  "@)
            } else {
                Seq::empty()
            };
            if !source.is_empty() {
                out.append(p);
                out.append("source:\n");
                let deeper = String::from_str(p).concat("  ");
                proof {
                    assert(source@.subrange(0, source@.len() as int) =~= source@);
                }
                write_entries(source, 0, deeper.as_str(), out);
                proof {
                    lemma_grp3(m2, p@, "source:\n"@, spec_render_entries(source@, p@ + "  "@));
                }
            } else {
                proof {
                    assert(m2 + piece_source =~= m2);
                }
            }
            let ghost m3 = out@;
            let ghost piece_params: Seq<char> = if params@.len() > 0 {
                p@ + "params:\n"@ + spec_render_entries(params@, p@ + "  "@)
            } else {
                Seq::empty()
            };
            if !params.is_empty() {
                out.append(p);
                out.append("params:\n");
                let deeper = String::from_str(p).concat("  ");
                proof {
                    assert(params@.subrange(0, params@.len() as int) =~= params@);
                }
                write_entries(params, 0, deeper.as_str(), out);
                proof {
                    lemma_grp3(m3, p@, "params:\n"@, spec_render_entries(params@, p@ + "  "@));
                }
            } else {
                proof {
                    assert(m3 + piece_params =~= m3);
                }
            }
            proof {
                lemma_grp4(before, piece_title, piece_base, piece_source, piece_params);
                assert(spec_render_resource_type(t@, first@, p@) =~= piece_title + (piece_base
                    + piece_source + piece_params));
                assert(piece_title + (piece_base + piece_source + piece_params)
                    =~= piece_title + piece_base + piece_source + piece_params);
                lemma_grp4(before, piece_title, piece_base, piece_source, piece_params);
            }
        }
        _ => {
            proof {
                assert(m1 + (match t@ {
                    crate::model::SpecResourceTypes::Custom { .. } => Seq::<char>::empty(),
                    _ => Seq::<char>::empty(),
                }) =~= m1);
                assert(spec_render_resource_type(t@, first@, p@) =~= piece_title);
            }
        }
    }
}

/// Appends the resource type declarations from position `i` on.
#[verifier::rlimit(60)]
#[verifier::spinoff_prover]
fn write_resource_types(
    v: &Vec<crate::resource::ResourceTypes>,
    i: usize,
    first: &str,
    p: &str,
    out: &mut String,
)
    requires
        i <= v@.len(),
    ensures
        final(out)@ == old(out)@ + spec_render_resource_types(
            Seq::new(v@.len(), |k: int| v@[k].view()).subrange(i as int, v@.len() as int),
            first@,
            p@,
        ),
    decreases v@.len() - i,
{
    let ghost rv = Seq::new(v@.len(), |k: int| v@[k].view());
    if i == v.len() {
        proof {
            assert(out@ =~= old(out)@ + spec_render_resource_types(
                rv.subrange(i as int, v@.len() as int),
                first@,
                p@,
            ));
        }
        return;
    }
    let ghost before = out@;
    proof {
        assert(rv.subrange(i as int, v@.len() as int)[0] == rv[i as int]);
        assert(rv.subrange(i as int, v@.len() as int).drop_first() =~= rv.subrange(
            i + 1,
            v@.len() as int,
        ));
    }
    write_resource_type(&v[i], first, p, out);
    write_resource_types(v, i + 1, first, p, out);
    proof {
        lemma_grp2(
            before,
            spec_render_resource_type(rv[i as int], first@, p@),
            spec_render_resource_types(rv.subrange(i + 1, v@.len() as int), first@, p@),
        );
    }
}

/// Renders a pipeline as a YAML document. The configuration form of a
/// concurrent group is reported, never emitted.
#[verifier::rlimit(100)]
#[verifier::spinoff_prover]
pub fn render_pipeline(pl: &crate::pipeline::Pipeline) -> (r: Result<String, Errors>)
    ensures
        r is Ok <==> !pipeline_has_cfg_parallel(pl@),
        r matches Err(e) ==> e matches Errors::RenderError(m) && m@ == render_refused_message(),
        r matches Ok(s) ==> s@ == spec_render_pipeline(pl@),
{
    let mut out = String::new();
    let ghost piece_display: Seq<char> = (match pl@.display {
        None => Seq::<char>::empty(),
        Some(uri) => "display:\n  background_image: "@ + yaml_scalar(uri) + "\n"@,
    });
    match &pl.display {
        None => {}
        Some(d) => {
            out.append("display:\n  background_image: ");
            write_scalar(d.background_image.as_str(), &mut out);
            out.append("\n");
        }
    }
    let ghost m1 = out@;
    proof {
        assert(m1 =~= Seq::<char>::empty() + piece_display);
    }
    let ghost jv = crate::model::jobs_view(pl.jobs@);
    let ghost piece_jobs: Seq<char> = if pl@.jobs.len() > 0 {
        "jobs:\n"@ + spec_render_jobs(pl@.jobs, "- "@, "  "@)
    } else {
        Seq::empty()
    };
    proof {
        crate::model::lemma_jobs_view_len(pl.jobs@);
    }
    if pl.jobs.len() > 0 {
        out.append("jobs:\n");
        proof {
            assert(jv.subrange(0, pl.jobs@.len() as int) =~= jv);
        }
        let res = render_jobs(&pl.jobs, 0, "- ", "  ", &mut out);
        match res {
            Ok(_) => {
                proof {
                    lemma_grp2(m1, "jobs:\n"@, spec_render_jobs(jv, "- "@, "  "@));
                }
            }
            Err(e) => {
                return Err(e);
            }
        }
    } else {
        proof {
            assert(m1 + piece_jobs =~= m1);
        }
    }
    let ghost m2 = out@;
    proof {
        assert(m2 == m1 + piece_jobs);
        assert(!jobs_have_cfg_parallel(jv));
    }
    let ghost rv = Seq::new(pl.resources@.len(), |k: int| pl.resources@[k].view());
    let ghost piece_resources: Seq<char> = if pl@.resources.len() > 0 {
        "resources:\n"@ + spec_render_resources(pl@.resources, "- "@, "  "@)
    } else {
        Seq::empty()
    };
    proof {
        assert(pl@.resources == rv);
    }
    if pl.resources.len() > 0 {
        out.append("resources:\n");
        proof {
            assert(rv.subrange(0, pl.resources@.len() as int) =~= rv);
        }
        write_resources(&pl.resources, 0, "- ", "  ", &mut out);
        proof {
            lemma_grp2(m2, "resources:\n"@, spec_render_resources(rv, "- "@, "  "@));
        }
    } else {
        proof {
            assert(m2 + piece_resources =~= m2);
        }
    }
    let ghost m3 = out@;
    proof {
        assert(m3 == m2 + piece_resources);
    }
    let ghost tv = Seq::new(pl.resource_types@.len(), |k: int| pl.resource_types@[k].view());
    let ghost piece_types: Seq<char> = if pl@.resource_types.len() > 0 {
        "resource_types:\n"@ + spec_render_resource_types(pl@.resource_types, "- "@, "  "@)
    } else {
        Seq::empty()
    };
    proof {
        assert(pl@.resource_types == tv);
    }
    if pl.resource_types.len() > 0 {
        out.append("resource_types:\n");
        proof {
            assert(tv.subrange(0, pl.resource_types@.len() as int) =~= tv);
        }
        write_resource_types(&pl.resource_types, 0, "- ", "  ", &mut out);
        proof {
            lemma_grp2(m3, "resource_types:\n"@, spec_render_resource_types(tv, "- "@, "  "@));
        }
    } else {
        proof {
            assert(m3 + piece_types =~= m3);
        }
    }
    proof {
        assert(out@ == m3 + piece_types);
        assert(out@ =~= piece_display + piece_jobs + piece_resources + piece_types);
        assert(spec_render_pipeline(pl@) == piece_display + piece_jobs + piece_resources
            + piece_types);
    }
    Ok(out)
}

} // verus!
