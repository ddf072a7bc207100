//! The generated README: placeholder substitution and the document around it.

use vstd::prelude::*;
use crate::text::{replace_all, replace_spec};

verus! {

/// What `str::to_uppercase` gives for these characters.
pub uninterp spec fn upper_of(s: Seq<char>) -> Seq<char>;

/// What `str::to_lowercase` gives for these characters.
pub uninterp spec fn lower_of(s: Seq<char>) -> Seq<char>;

/// Relies on `str::to_uppercase`: Unicode upper case, which depends on the
/// characters alone.
#[verifier::external_body]
fn uppercase(s: &str) -> (r: String)
    ensures
        r@ == upper_of(s@),
{
    s.to_uppercase()
}

/// Relies on `str::to_lowercase`: Unicode lower case, which depends on the
/// characters alone.
#[verifier::external_body]
fn lowercase(s: &str) -> (r: String)
    ensures
        r@ == lower_of(s@),
{
    s.to_lowercase()
}

pub open spec fn is_digit(c: char) -> bool {
    '0' <= c && c <= '9'
}

/// A year as chrono's `%Y` writes it: four digits, or, outside 0 to 9999, a
/// sign and at least four digits.
pub open spec fn is_year_text(y: Seq<char>) -> bool {
    ||| y.len() == 4 && forall|i: int| 0 <= i < 4 ==> is_digit(#[trigger] y[i])
    ||| y.len() >= 5 && (y[0] == '+' || y[0] == '-') && forall|i: int| 1 <= i < y.len() ==> is_digit(#[trigger] y[i])
}

/// `YYYY-MM-DD HH:MM`: a year, then two-digit month, day, hour and minute.
pub open spec fn is_minute_stamp(s: Seq<char>) -> bool {
    let n = s.len() as int;
    &&& n >= 16
    &&& is_year_text(s.subrange(0, n - 12))
    &&& s[n - 12] == '-' && is_digit(s[n - 11]) && is_digit(s[n - 10])
    &&& s[n - 9] == '-' && is_digit(s[n - 8]) && is_digit(s[n - 7])
    &&& s[n - 6] == ' ' && is_digit(s[n - 5]) && is_digit(s[n - 4])
    &&& s[n - 3] == ':' && is_digit(s[n - 2]) && is_digit(s[n - 1])
}

/// Relies on `chrono::Local::now` and its `format` with `%Y-%m-%d %H:%M`: the
/// local time now, to the minute; `%Y` writes a year as `is_year_text` says,
/// the others two zero-padded digits each.
#[verifier::external_body]
pub(crate) fn local_minute_stamp() -> (r: String)
    ensures
        is_minute_stamp(r@),
{
    chrono::Local::now().format("%Y-%m-%d %H:%M").to_string()
}

pub open spec fn pairs_view(v: Seq<(String, String)>) -> Seq<(Seq<char>, Seq<char>)> {
    v.map_values(|p: (String, String)| (p.0@, p.1@))
}

/// `{name}`.
pub open spec fn braced(name: Seq<char>) -> Seq<char> {
    seq!['{'] + name + seq!['}']
}

/// `body` after each `(placeholder, value)` pair has replaced every occurrence
/// of its placeholder, pair by pair in order. An empty placeholder changes nothing.
pub open spec fn apply_all(body: Seq<char>, subs: Seq<(Seq<char>, Seq<char>)>) -> Seq<char>
    decreases subs.len(),
{
    if subs.len() == 0 {
        body
    } else {
        replace_spec(apply_all(body, subs.drop_last()), subs.last().0, subs.last().1)
    }
}

/// For each field in order, its upper-case and then its lower-case placeholder,
/// both standing for the field's value.
pub open spec fn field_subs(fields: Seq<(Seq<char>, Seq<char>)>) -> Seq<(Seq<char>, Seq<char>)>
    decreases fields.len(),
{
    if fields.len() == 0 {
        Seq::empty()
    } else {
        let (id, value) = fields.last();
        field_subs(fields.drop_last()) + seq![(braced(upper_of(id)), value), (braced(lower_of(id)), value)]
    }
}

/// The project name and the time, each under its upper- and lower-case placeholder.
pub open spec fn fixed_subs(project: Seq<char>, stamp: Seq<char>) -> Seq<(Seq<char>, Seq<char>)> {
    seq![
        ("{PROJECT_NAME}"@, project),
        ("{project_name}"@, project),
        ("{DATE}"@, stamp),
        ("{date}"@, stamp),
    ]
}

/// The README template with every placeholder filled in.
pub open spec fn readme_body(
    template: Seq<char>,
    project: Seq<char>,
    stamp: Seq<char>,
    fields: Seq<(Seq<char>, Seq<char>)>,
) -> Seq<char> {
    apply_all(template, fixed_subs(project, stamp) + field_subs(fields))
}

/// The README file: a heading with the project name, the creation time, a
/// "what's next" heading, then the filled-in template.
pub open spec fn readme_document(project: Seq<char>, stamp: Seq<char>, body: Seq<char>) -> Seq<char> {
    "# "@ + project + "\n\nСоздано: "@ + stamp + "\n\n## Что дальше\n"@ + body
}

/// Applies the `(placeholder, value)` pairs to `template` in order.
pub fn apply_substitutions(template: &str, subs: &Vec<(String, String)>) -> (r: String)
    ensures
        r@ == apply_all(template@, pairs_view(subs@)),
{
    let mut body = String::from_str(template);
    let mut i: usize = 0;
    while i < subs.len()
        invariant
            i <= subs@.len(),
            body@ == apply_all(template@, pairs_view(subs@).subrange(0, i as int)),
        decreases subs@.len() - i,
    {
        let ghost before = body@;
        let pat = &subs[i].0;
        let value = &subs[i].1;
        if pat.as_str().unicode_len() > 0 {
            body = replace_all(body.as_str(), pat.as_str(), value.as_str());
        }
        proof {
            let ps = pairs_view(subs@);
            assert(ps.subrange(0, i + 1).drop_last() =~= ps.subrange(0, i as int));
            assert(ps[i as int] == (pat@, value@));
        }
        i = i + 1;
    }
    assert(pairs_view(subs@).subrange(0, i as int) =~= pairs_view(subs@));
    body
}

fn braced_exec(name: &str) -> (r: String)
    ensures
        r@ == braced(name@),
{
    let open = "{";
    let close = "}";
    proof {
        reveal_strlit("{");
        reveal_strlit("}");
    }
    let mut r = String::from_str(open);
    r.append(name);
    r.append(close);
    r
}

/// The placeholder pairs of the fields, as `field_subs` lists them.
pub fn field_substitutions(fields: &Vec<(String, String)>) -> (r: Vec<(String, String)>)
    ensures
        pairs_view(r@) == field_subs(pairs_view(fields@)),
{
    let mut r: Vec<(String, String)> = Vec::new();
    let mut i: usize = 0;
    while i < fields.len()
        invariant
            i <= fields@.len(),
            pairs_view(r@) == field_subs(pairs_view(fields@).subrange(0, i as int)),
        decreases fields@.len() - i,
    {
        let id = fields[i].0.as_str();
        let value = &fields[i].1;
        let up = braced_exec(uppercase(id).as_str());
        let low = braced_exec(lowercase(id).as_str());
        let ghost old_r = r@;
        r.push((up, value.clone()));
        r.push((low, value.clone()));
        proof {
            let fs = pairs_view(fields@);
            assert(fs.subrange(0, i + 1).drop_last() =~= fs.subrange(0, i as int));
            assert(fs[i as int] == (id@, value@));
            assert(pairs_view(r@) =~= pairs_view(old_r) + seq![
                (braced(upper_of(id@)), value@),
                (braced(lower_of(id@)), value@),
            ]);
        }
        i = i + 1;
    }
    assert(pairs_view(fields@).subrange(0, i as int) =~= pairs_view(fields@));
    r
}

/// The README for `project_name`, created at `stamp`, from `template` and the
/// field values `(id, value)` in order.
pub fn render_readme(template: &str, project_name: &str, stamp: &str, fields: &Vec<(String, String)>) -> (r:
    String)
    ensures
        r@ == readme_document(project_name@, stamp@, readme_body(template@, project_name@, stamp@, pairs_view(fields@))),
{
    let mut subs: Vec<(String, String)> = Vec::new();
    subs.push((String::from_str("{PROJECT_NAME}"), String::from_str(project_name)));
    subs.push((String::from_str("{project_name}"), String::from_str(project_name)));
    subs.push((String::from_str("{DATE}"), String::from_str(stamp)));
    subs.push((String::from_str("{date}"), String::from_str(stamp)));
    let ghost fixed = subs@;
    let mut more = field_substitutions(fields);
    subs.append(&mut more);
    assert(pairs_view(subs@) =~= fixed_subs(project_name@, stamp@) + field_subs(pairs_view(fields@)));
    let body = apply_substitutions(template, &subs);
    let mut doc = String::from_str("# ");
    doc.append(project_name);
    doc.append("\n\nСоздано: ");
    doc.append(stamp);
    doc.append("\n\n## Что дальше\n");
    doc.append(body.as_str());
    doc
}

} // verus!
