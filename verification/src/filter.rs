//! Filter pipelines: the commands that a stream goes through, rendered as
//! mustache templates with the data of the stream.
use std::collections::HashMap;
use vstd::prelude::*;

use crate::config::{FilterConfig, PostFilterConfig};
use crate::epg::EpgChannel;
use crate::models::Sid;
use crate::render_safety::render_safe;
use crate::text::{decimal, to_decimal};

verus! {

/// The data that a template is rendered with, as mustache sees it.
pub enum TemplateData {
    Null,
    Str(String),
    Bool(bool),
    List(Vec<TemplateData>),
    Fields(Vec<(String, TemplateData)>),
}

/// A template that could not be compiled or rendered, with the message of
/// the template engine.
#[derive(Debug)]
pub enum FilterError {
    Template(String),
}

/// The data of the mustache crate (`mustache::Data`), held opaque.
#[verifier::external_type_specification]
#[verifier::external_body]
pub struct ExMustacheData(mustache::Data);

/// The mustache data of a value, field for field: the conversion that
/// `render_template` makes of the data it is handed.
///
/// Trusted: builds the values of `mustache::Data` that correspond to each
/// variant (of fields with one name, the last); nothing is claimed of the
/// result.
#[verifier::external_body]
fn mustache_data(value: &TemplateData) -> mustache::Data {
    match value {
        TemplateData::Null => mustache::Data::Null,
        TemplateData::Str(s) => mustache::Data::String(s.clone()),
        TemplateData::Bool(b) => mustache::Data::Bool(*b),
        TemplateData::List(items) => mustache::Data::Vec(items.iter().map(mustache_data).collect()),
        TemplateData::Fields(entries) => mustache::Data::Map(
            entries.iter().map(|(k, v)| (k.clone(), mustache_data(v))).collect::<HashMap<_, _>>(),
        ),
    }
}

/// Whether a text holds the opening of a mustache tag, `{{`.
pub open spec fn has_tag_open(s: Seq<char>) -> bool {
    exists|i: int| 0 <= i < s.len() - 1 && #[trigger] s[i] == '{' && s[i + 1] == '{'
}

/// Whether a template may read files: it holds `{{>` (a partial, read from
/// a file) or `{{=` (a change of delimiters, after which partials are
/// written otherwise).
pub open spec fn reads_files(s: Seq<char>) -> bool {
    exists|i: int| 0 <= i < s.len() - 2 && #[trigger] s[i] == '{' && s[i + 1] == '{' && (s[i + 2] == '>' || s[i + 2]
        == '=')
}

/// What mustache 0.9 renders a template to with data (`None` where the
/// template does not compile or render), for a template that reads no file.
pub uninterp spec fn mustache_rendered(template: Seq<char>, data: TemplateData) -> Option<Seq<char>>;

/// A template rendered with data.
///
/// Trusted: converts the data into `mustache::Data`, calls
/// `mustache::compile_str` and `Template::render_data_to_string`, and gives
/// the text or the message of the error.  The contract claims two things.
/// A template that reads no file renders as `mustache_rendered` names for
/// the template and the data: the crate's parser and renderer read nothing
/// else, and walk lists in order.  And, as the parser shows, a template
/// without the opening of a tag is a single piece of text and renders as
/// itself.  Nothing is claimed of a template with partials, which are read
/// from files.
///
/// The template and the data are those `render_safe` accepts: the crate
/// panics where a variable tag finds a boolean, a list or a map, and the
/// plain form that `render_safe` reads leaves those out.  Its tags are
/// found by the crate's parser where `render_safe` finds them, as it takes
/// a tag at the first `{{` of a text, a third `{` for an unescaped tag, and
/// the name up to `}}`; a name resolves to a value held under its last part,
/// and `.` to the value of the innermost section that pushes one.
#[verifier::external_body]
fn render_template(template: &str, data: &TemplateData) -> (r: Result<String, FilterError>)
    requires
        render_safe(template@, *data),
    ensures
        !has_tag_open(template@) ==> r is Ok && r->Ok_0@ == template@,
        !reads_files(template@) ==> match r {
            Ok(t) => mustache_rendered(template@, *data) == Some(t@),
            Err(_) => mustache_rendered(template@, *data) is None,
        },
{
    let d = mustache_data(data);
    match mustache::compile_str(template) {
        Ok(t) => match t.render_data_to_string(&d) {
            Ok(s) => Ok(s),
            Err(e) => Err(FilterError::Template(format!("{e}"))),
        },
        Err(e) => Err(FilterError::Template(format!("{e}"))),
    }
}

/// What `str::trim` of std gives: the text without its leading and
/// trailing white space.
pub uninterp spec fn str_trimmed(s: Seq<char>) -> Seq<char>;

/// The text without its leading and trailing white space.
///
/// Trusted: calls `str::trim` of std.
#[verifier::external_body]
fn trim(s: &str) -> (r: &str)
    ensures
        r@ == str_trimmed(s@),
{
    s.trim()
}

/// The position of the first entry of a name, or -1.
pub open spec fn named_position<C>(m: Seq<(String, C)>, name: Seq<char>) -> int
    decreases m.len(),
{
    if m.len() == 0 {
        -1
    } else if named_position(m.drop_last(), name) >= 0 {
        named_position(m.drop_last(), name)
    } else if m.last().0@ == name {
        m.len() - 1
    } else {
        -1
    }
}

proof fn lemma_named_position<C>(m: Seq<(String, C)>, name: Seq<char>)
    ensures
        -1 <= named_position(m, name) < m.len(),
        named_position(m, name) >= 0 ==> m[named_position(m, name)].0@ == name,
        named_position(m, name) >= 0 ==> forall|i: int| 0 <= i < named_position(m, name) ==> m[i].0@ != name,
        named_position(m, name) < 0 ==> forall|i: int| 0 <= i < m.len() ==> m[i].0@ != name,
    decreases m.len(),
{
    if m.len() > 0 {
        let d = m.drop_last();
        lemma_named_position(d, name);
        assert forall|i: int| 0 <= i < d.len() implies d[i] == m[i] by {}
    }
}

fn find_named<C>(m: &Vec<(String, C)>, name: &String) -> (r: Option<usize>)
    ensures
        match r {
            Some(i) => i == named_position(m@, name@),
            None => named_position(m@, name@) < 0,
        },
{
    proof { lemma_named_position(m@, name@); }
    let mut i: usize = 0;
    while i < m.len()
        invariant
            i <= m@.len(),
            forall|j: int| 0 <= j < i ==> m@[j].0@ != name@,
            -1 <= named_position(m@, name@) < m@.len(),
            named_position(m@, name@) >= 0 ==> m@[named_position(m@, name@)].0@ == name@,
            named_position(m@, name@) >= 0 ==> forall|j: int| 0 <= j < named_position(m@, name@) ==> m@[j].0@
                != name@,
        decreases m@.len() - i,
    {
        if m[i].0 == *name {
            assert(m@[i as int].0@ == name@);
            proof {
                lemma_named_position(m@, name@);
                let np = named_position(m@, name@);
                if np < 0 {
                    assert(m@[i as int].0@ != name@);
                } else if np < i {
                    assert(m@[np].0@ == name@);
                    assert(m@[np].0@ != name@);
                } else if np > i {
                    assert(m@[i as int].0@ != name@);
                }
            }
            return Some(i);
        }
        i = i + 1;
    }
    None
}

/// The text of an optional string.
pub open spec fn opt_text(o: Option<String>) -> Option<Seq<char>> {
    match o {
        Some(c) => Some(c@),
        None => None,
    }
}

/// The content type of a stream that no post-filter changed.
pub open spec fn default_content_type() -> Seq<char> {
    "video/MP2T"@
}

/// The filters after a rendered command: an error is passed on and changes
/// nothing; a command that is empty once trimmed adds nothing; any other
/// is added trimmed, and sets the content type when one is given.
pub open spec fn after_rendered(
    filters: Seq<String>,
    content_type: Seq<char>,
    rendered: Result<String, FilterError>,
    new_type: Option<Seq<char>>,
    r: Result<usize, FilterError>,
    new_filters: Seq<String>,
    new_content_type: Seq<char>,
) -> bool {
    match rendered {
        Err(e) => r == Err::<usize, FilterError>(e) && new_filters == filters && new_content_type == content_type,
        Ok(text) => {
            let t = str_trimmed(text@);
            if t.len() == 0 {
                r == Ok::<usize, FilterError>(filters.len() as usize) && new_filters == filters && new_content_type
                    == content_type
            } else {
                &&& new_filters.len() == filters.len() + 1
                &&& new_filters.drop_last() == filters
                &&& new_filters.last()@ == t
                &&& r == Ok::<usize, FilterError>(new_filters.len() as usize)
                &&& new_content_type == match new_type {
                    Some(c) => c,
                    None => content_type,
                }
            }
        },
    }
}

/// The filters after a command without a tag: unchanged where the command
/// is empty once trimmed, else with the trimmed command added.
pub open spec fn plain_added(before: Seq<String>, command: Seq<char>, after: Seq<String>) -> bool {
    let t = str_trimmed(command);
    if t.len() == 0 {
        after == before
    } else {
        &&& after.len() == before.len() + 1
        &&& after.drop_last() == before
        &&& after.last()@ == t
    }
}

/// The filters after a command that renders as `rendered` (`None` for a
/// failure): a failure gives an error and changes nothing; a text that is
/// empty once trimmed adds nothing; any other text is added trimmed, and
/// sets the content type when one is given.
pub open spec fn rendered_added(
    filters: Seq<String>,
    content_type: Seq<char>,
    rendered: Option<Seq<char>>,
    new_type: Option<Seq<char>>,
    r: Result<usize, FilterError>,
    new_filters: Seq<String>,
    new_content_type: Seq<char>,
) -> bool {
    match rendered {
        None => r is Err && new_filters == filters && new_content_type == content_type,
        Some(text) => {
            let t = str_trimmed(text);
            if t.len() == 0 {
                r == Ok::<usize, FilterError>(filters.len() as usize) && new_filters == filters && new_content_type
                    == content_type
            } else {
                &&& new_filters.len() == filters.len() + 1
                &&& new_filters.drop_last() == filters
                &&& new_filters.last()@ == t
                &&& r == Ok::<usize, FilterError>(new_filters.len() as usize)
                &&& new_content_type == match new_type {
                    Some(c) => c,
                    None => content_type,
                }
            }
        },
    }
}

/// A step of a pipeline: a command, and the content type that it sets when
/// it adds a filter.
pub type FilterStep = (Seq<char>, Option<Seq<char>>);

/// The texts of strings.
pub open spec fn texts(v: Seq<String>) -> Seq<Seq<char>> {
    v.map_values(|s: String| s@)
}

/// The filters and the content type after steps whose commands have no tag,
/// each rendering as itself: a command that is empty, or empty once
/// trimmed, adds nothing; any other adds itself trimmed and sets the
/// content type of its step, if any.
pub open spec fn plain_fold(filters: Seq<Seq<char>>, content_type: Seq<char>, steps: Seq<FilterStep>) -> (
    Seq<Seq<char>>,
    Seq<char>,
)
    decreases steps.len(),
{
    if steps.len() == 0 {
        (filters, content_type)
    } else {
        let prev = plain_fold(filters, content_type, steps.drop_last());
        let cmd = steps.last().0;
        let t = str_trimmed(cmd);
        if cmd.len() == 0 || t.len() == 0 {
            prev
        } else {
            (
                prev.0.push(t),
                match steps.last().1 {
                    Some(c) => c,
                    None => prev.1,
                },
            )
        }
    }
}

/// Folding over two runs of steps is folding over the second from where
/// the first ends.
pub proof fn lemma_plain_fold_append(
    filters: Seq<Seq<char>>,
    content_type: Seq<char>,
    a: Seq<FilterStep>,
    b: Seq<FilterStep>,
)
    ensures
        plain_fold(filters, content_type, a + b) == plain_fold(
            plain_fold(filters, content_type, a).0,
            plain_fold(filters, content_type, a).1,
            b,
        ),
    decreases b.len(),
{
    if b.len() == 0 {
        assert(a + b =~= a);
    } else {
        lemma_plain_fold_append(filters, content_type, a, b.drop_last());
        assert((a + b).drop_last() =~= a + b.drop_last());
        assert((a + b).last() == b.last());
    }
}

/// The steps of the pre-filters of the names, in order; names that no
/// pre-filter has are left out.
pub open spec fn pre_steps(pre_filters: Seq<(String, FilterConfig)>, names: Seq<String>) -> Seq<FilterStep>
    decreases names.len(),
{
    if names.len() == 0 {
        Seq::empty()
    } else {
        let prev = pre_steps(pre_filters, names.drop_last());
        let p = named_position(pre_filters, names.last()@);
        if p >= 0 {
            prev.push((pre_filters[p].1.command@, None))
        } else {
            prev
        }
    }
}

/// The steps of the post-filters of the names, in order; names that no
/// post-filter has are left out.
pub open spec fn post_steps(post_filters: Seq<(String, PostFilterConfig)>, names: Seq<String>) -> Seq<FilterStep>
    decreases names.len(),
{
    if names.len() == 0 {
        Seq::empty()
    } else {
        let prev = post_steps(post_filters, names.drop_last());
        let p = named_position(post_filters, names.last()@);
        if p >= 0 {
            prev.push((post_filters[p].1.command@, opt_text(post_filters[p].1.content_type)))
        } else {
            prev
        }
    }
}

/// Whether no pre-filter of the names has a tag in its command.
pub open spec fn pre_plain(pre_filters: Seq<(String, FilterConfig)>, names: Seq<String>) -> bool {
    forall|i: int|
        0 <= i < names.len() && named_position(pre_filters, (#[trigger] names[i])@) >= 0 ==> !has_tag_open(
            pre_filters[named_position(pre_filters, names[i]@)].1.command@,
        )
}

/// Whether no post-filter of the names has a tag in its command.
pub open spec fn post_plain(post_filters: Seq<(String, PostFilterConfig)>, names: Seq<String>) -> bool {
    forall|i: int|
        0 <= i < names.len() && named_position(post_filters, (#[trigger] names[i])@) >= 0 ==> !has_tag_open(
            post_filters[named_position(post_filters, names[i]@)].1.command@,
        )
}

/// The filters and the content type after steps whose commands are rendered
/// with the data, or `None` where one does not render: a command that is
/// empty, or whose text is empty once trimmed, adds nothing; any other adds
/// its text trimmed and sets the content type of its step, if any.
pub open spec fn rendered_fold(
    filters: Seq<Seq<char>>,
    content_type: Seq<char>,
    steps: Seq<FilterStep>,
    data: TemplateData,
) -> Option<(Seq<Seq<char>>, Seq<char>)>
    decreases steps.len(),
{
    if steps.len() == 0 {
        Some((filters, content_type))
    } else {
        match rendered_fold(filters, content_type, steps.drop_last(), data) {
            None => None,
            Some(prev) => {
                let cmd = steps.last().0;
                if cmd.len() == 0 {
                    Some(prev)
                } else {
                    match mustache_rendered(cmd, data) {
                        None => None,
                        Some(text) => {
                            let t = str_trimmed(text);
                            if t.len() == 0 {
                                Some(prev)
                            } else {
                                Some(
                                    (
                                        prev.0.push(t),
                                        match steps.last().1 {
                                            Some(c) => c,
                                            None => prev.1,
                                        },
                                    ),
                                )
                            }
                        },
                    }
                }
            },
        }
    }
}

/// Rendering two runs of steps is rendering the second from where the first
/// ends; a failure in the first is a failure of both.
pub proof fn lemma_rendered_fold_append(
    filters: Seq<Seq<char>>,
    content_type: Seq<char>,
    a: Seq<FilterStep>,
    b: Seq<FilterStep>,
    data: TemplateData,
)
    ensures
        rendered_fold(filters, content_type, a + b, data) == match rendered_fold(filters, content_type, a, data) {
            None => None,
            Some(p) => rendered_fold(p.0, p.1, b, data),
        },
    decreases b.len(),
{
    if b.len() == 0 {
        assert(a + b =~= a);
    } else {
        lemma_rendered_fold_append(filters, content_type, a, b.drop_last(), data);
        assert((a + b).drop_last() =~= a + b.drop_last());
        assert((a + b).last() == b.last());
    }
}

/// The steps of the pre-filters of two runs of names are those of each.
pub proof fn lemma_pre_steps_append(pre_filters: Seq<(String, FilterConfig)>, a: Seq<String>, b: Seq<String>)
    ensures
        pre_steps(pre_filters, a + b) == pre_steps(pre_filters, a) + pre_steps(pre_filters, b),
    decreases b.len(),
{
    if b.len() == 0 {
        assert(a + b =~= a);
        assert(pre_steps(pre_filters, a) + pre_steps(pre_filters, b) =~= pre_steps(pre_filters, a));
    } else {
        lemma_pre_steps_append(pre_filters, a, b.drop_last());
        assert((a + b).drop_last() =~= a + b.drop_last());
        assert((a + b).last() == b.last());
        let p = named_position(pre_filters, b.last()@);
        if p >= 0 {
            assert(pre_steps(pre_filters, a) + pre_steps(pre_filters, b) =~= (pre_steps(pre_filters, a)
                + pre_steps(pre_filters, b.drop_last())).push((pre_filters[p].1.command@, None)));
        }
    }
}

/// The steps of the post-filters of two runs of names are those of each.
pub proof fn lemma_post_steps_append(post_filters: Seq<(String, PostFilterConfig)>, a: Seq<String>, b: Seq<String>)
    ensures
        post_steps(post_filters, a + b) == post_steps(post_filters, a) + post_steps(post_filters, b),
    decreases b.len(),
{
    if b.len() == 0 {
        assert(a + b =~= a);
        assert(post_steps(post_filters, a) + post_steps(post_filters, b) =~= post_steps(post_filters, a));
    } else {
        lemma_post_steps_append(post_filters, a, b.drop_last());
        assert((a + b).drop_last() =~= a + b.drop_last());
        assert((a + b).last() == b.last());
        let p = named_position(post_filters, b.last()@);
        if p >= 0 {
            assert(post_steps(post_filters, a) + post_steps(post_filters, b) =~= (post_steps(post_filters, a)
                + post_steps(post_filters, b.drop_last())).push(
                (post_filters[p].1.command@, opt_text(post_filters[p].1.content_type)),
            ));
        }
    }
}

/// Whether every pre-filter of the names renders safely with the data.
pub open spec fn pre_render_safe(pre_filters: Seq<(String, FilterConfig)>, names: Seq<String>, data: TemplateData) -> bool {
    forall|i: int|
        0 <= i < names.len() && named_position(pre_filters, (#[trigger] names[i])@) >= 0 ==> render_safe(
            pre_filters[named_position(pre_filters, names[i]@)].1.command@,
            data,
        )
}

/// Whether every post-filter of the names renders safely with the data.
pub open spec fn post_render_safe(post_filters: Seq<(String, PostFilterConfig)>, names: Seq<String>, data: TemplateData) -> bool {
    forall|i: int|
        0 <= i < names.len() && named_position(post_filters, (#[trigger] names[i])@) >= 0 ==> render_safe(
            post_filters[named_position(post_filters, names[i]@)].1.command@,
            data,
        )
}

/// Whether no pre-filter of the names may read a file.
pub open spec fn pre_files_free(pre_filters: Seq<(String, FilterConfig)>, names: Seq<String>) -> bool {
    forall|i: int|
        0 <= i < names.len() && named_position(pre_filters, (#[trigger] names[i])@) >= 0 ==> !reads_files(
            pre_filters[named_position(pre_filters, names[i]@)].1.command@,
        )
}

/// Whether no post-filter of the names may read a file.
pub open spec fn post_files_free(post_filters: Seq<(String, PostFilterConfig)>, names: Seq<String>) -> bool {
    forall|i: int|
        0 <= i < names.len() && named_position(post_filters, (#[trigger] names[i])@) >= 0 ==> !reads_files(
            post_filters[named_position(post_filters, names[i]@)].1.command@,
        )
}

/// Builds the commands of a filter pipeline and the content type of its
/// output.
pub struct FilterPipelineBuilder {
    pub data: TemplateData,
    pub filters: Vec<String>,
    pub content_type: String,
}

impl FilterPipelineBuilder {
    /// No filters yet, and the content type of an MPEG-TS stream.
    pub fn new(data: TemplateData) -> (r: Self)
        ensures
            r.data == data,
            r.filters@.len() == 0,
            r.content_type@ == default_content_type(),
    {
        FilterPipelineBuilder { data, filters: Vec::new(), content_type: String::from_str("video/MP2T") }
    }

    /// The filters and the content type.
    pub fn build(self) -> (r: (Vec<String>, String))
        ensures
            r.0 == self.filters,
            r.1 == self.content_type,
    {
        (self.filters, self.content_type)
    }

    /// A command rendered with the data, trimmed.  A command without a tag
    /// is the command trimmed.
    pub fn make_filter(&self, command: &str) -> (r: Result<String, FilterError>)
        requires
            render_safe(command@, self.data),
        ensures
            r matches Ok(t) ==> exists|s: Seq<char>| t@ == str_trimmed(s),
            !has_tag_open(command@) ==> r is Ok && r->Ok_0@ == str_trimmed(command@),
            !reads_files(command@) ==> match mustache_rendered(command@, self.data) {
                Some(s) => r is Ok && r->Ok_0@ == str_trimmed(s),
                None => r is Err,
            },
    {
        match render_template(command, &self.data) {
            Ok(s) => Ok(String::from_str(trim(s.as_str()))),
            Err(e) => Err(e),
        }
    }

    /// Takes a rendered command, as `after_rendered` says.
    pub fn add_rendered(&mut self, rendered: Result<String, FilterError>, content_type: &Option<String>) -> (r: Result<
        usize,
        FilterError,
    >)
        requires
            old(self).filters@.len() < usize::MAX,
        ensures
            final(self).data == old(self).data,
            after_rendered(
                old(self).filters@,
                old(self).content_type@,
                rendered,
                opt_text(*content_type),
                r,
                final(self).filters@,
                final(self).content_type@,
            ),
    {
        match rendered {
            Err(e) => Err(e),
            Ok(text) => {
                let t = trim(text.as_str());
                if t.unicode_len() == 0 {
                    Ok(self.filters.len())
                } else {
                    let ghost before = self.filters@;
                    self.filters.push(String::from_str(t));
                    assert(self.filters@.drop_last() =~= before);
                    if let Some(c) = content_type {
                        self.content_type = c.clone();
                    }
                    Ok(self.filters.len())
                }
            },
        }
    }

    /// Renders a command, unless it is empty, and takes it as `add_rendered`
    /// does.
    fn add_command(&mut self, command: &String, content_type: &Option<String>) -> (r: Result<usize, FilterError>)
        requires
            old(self).filters@.len() < usize::MAX,
            render_safe(command@, old(self).data),
        ensures
            final(self).data == old(self).data,
            command@.len() == 0 ==> r == Ok::<usize, FilterError>(old(self).filters@.len() as usize) && final(self).filters
                == old(self).filters && final(self).content_type@ == old(self).content_type@,
            command@.len() > 0 ==> exists|rendered: Result<String, FilterError>|
                after_rendered(
                    old(self).filters@,
                    old(self).content_type@,
                    rendered,
                    opt_text(*content_type),
                    r,
                    final(self).filters@,
                    final(self).content_type@,
                ),
            command@.len() > 0 && !has_tag_open(command@) ==> after_rendered(
                old(self).filters@,
                old(self).content_type@,
                Ok::<String, FilterError>(*command),
                opt_text(*content_type),
                r,
                final(self).filters@,
                final(self).content_type@,
            ),            command@.len() > 0 && !reads_files(command@) ==> rendered_added(
                old(self).filters@,
                old(self).content_type@,
                mustache_rendered(command@, old(self).data),
                opt_text(*content_type),
                r,
                final(self).filters@,
                final(self).content_type@,
            ),
    {
        if command.as_str().unicode_len() == 0 {
            return Ok(self.filters.len());
        }
        let rendered = render_template(command.as_str(), &self.data);
        let ghost g = rendered;
        let r = self.add_rendered(rendered, content_type);
        assert(after_rendered(
            old(self).filters@,
            old(self).content_type@,
            g,
            opt_text(*content_type),
            r,
            self.filters@,
            self.content_type@,
        ));
        r
    }

    /// Adds the service filter, as `add_command` does.
    pub fn add_service_filter(&mut self, config: &FilterConfig) -> (r: Result<usize, FilterError>)
        requires
            old(self).filters@.len() < usize::MAX,
            render_safe(config.command@, old(self).data),
        ensures
            final(self).data == old(self).data,
            final(self).content_type@ == old(self).content_type@,
            config.command@.len() == 0 ==> r == Ok::<usize, FilterError>(old(self).filters@.len() as usize) && final(self).filters@ == old(self).filters@,
            r is Err ==> final(self).filters@ == old(self).filters@,
            r matches Ok(n) ==> n == final(self).filters@.len() && final(self).filters@.len() <= old(self).filters@.len() + 1,
            final(self).filters@.len() >= old(self).filters@.len(),
            final(self).filters@.take(old(self).filters@.len() as int) == old(self).filters@,
            config.command@.len() > 0 && !has_tag_open(config.command@) ==> r is Ok && plain_added(
                old(self).filters@,
                config.command@,
                final(self).filters@,
            ),
            config.command@.len() > 0 && !reads_files(config.command@) ==> match mustache_rendered(
                config.command@,
                old(self).data,
            ) {
                None => r is Err && final(self).filters@ == old(self).filters@,
                Some(t) => r is Ok && plain_added(old(self).filters@, t, final(self).filters@),
            },
    {
        self.add_builtin(config)
    }

    /// Adds the decode filter, as `add_command` does.
    pub fn add_decode_filter(&mut self, config: &FilterConfig) -> (r: Result<usize, FilterError>)
        requires
            old(self).filters@.len() < usize::MAX,
            render_safe(config.command@, old(self).data),
        ensures
            final(self).data == old(self).data,
            final(self).content_type@ == old(self).content_type@,
            config.command@.len() == 0 ==> r == Ok::<usize, FilterError>(old(self).filters@.len() as usize) && final(self).filters@ == old(self).filters@,
            r is Err ==> final(self).filters@ == old(self).filters@,
            r matches Ok(n) ==> n == final(self).filters@.len() && final(self).filters@.len() <= old(self).filters@.len() + 1,
            final(self).filters@.len() >= old(self).filters@.len(),
            final(self).filters@.take(old(self).filters@.len() as int) == old(self).filters@,
            config.command@.len() > 0 && !has_tag_open(config.command@) ==> r is Ok && plain_added(
                old(self).filters@,
                config.command@,
                final(self).filters@,
            ),
            config.command@.len() > 0 && !reads_files(config.command@) ==> match mustache_rendered(
                config.command@,
                old(self).data,
            ) {
                None => r is Err && final(self).filters@ == old(self).filters@,
                Some(t) => r is Ok && plain_added(old(self).filters@, t, final(self).filters@),
            },
    {
        self.add_builtin(config)
    }

    /// Adds the program filter, as `add_command` does.
    pub fn add_program_filter(&mut self, config: &FilterConfig) -> (r: Result<usize, FilterError>)
        requires
            old(self).filters@.len() < usize::MAX,
            render_safe(config.command@, old(self).data),
        ensures
            final(self).data == old(self).data,
            final(self).content_type@ == old(self).content_type@,
            config.command@.len() == 0 ==> r == Ok::<usize, FilterError>(old(self).filters@.len() as usize) && final(self).filters@ == old(self).filters@,
            r is Err ==> final(self).filters@ == old(self).filters@,
            r matches Ok(n) ==> n == final(self).filters@.len() && final(self).filters@.len() <= old(self).filters@.len() + 1,
            final(self).filters@.len() >= old(self).filters@.len(),
            final(self).filters@.take(old(self).filters@.len() as int) == old(self).filters@,
            config.command@.len() > 0 && !has_tag_open(config.command@) ==> r is Ok && plain_added(
                old(self).filters@,
                config.command@,
                final(self).filters@,
            ),
            config.command@.len() > 0 && !reads_files(config.command@) ==> match mustache_rendered(
                config.command@,
                old(self).data,
            ) {
                None => r is Err && final(self).filters@ == old(self).filters@,
                Some(t) => r is Ok && plain_added(old(self).filters@, t, final(self).filters@),
            },
    {
        self.add_builtin(config)
    }

    fn add_builtin(&mut self, config: &FilterConfig) -> (r: Result<usize, FilterError>)
        requires
            old(self).filters@.len() < usize::MAX,
            render_safe(config.command@, old(self).data),
        ensures
            final(self).data == old(self).data,
            final(self).content_type@ == old(self).content_type@,
            config.command@.len() == 0 ==> r == Ok::<usize, FilterError>(old(self).filters@.len() as usize) && final(self).filters@ == old(self).filters@,
            r is Err ==> final(self).filters@ == old(self).filters@,
            r matches Ok(n) ==> n == final(self).filters@.len() && final(self).filters@.len() <= old(self).filters@.len() + 1,
            final(self).filters@.len() >= old(self).filters@.len(),
            final(self).filters@.take(old(self).filters@.len() as int) == old(self).filters@,
            config.command@.len() > 0 && !has_tag_open(config.command@) ==> r is Ok && plain_added(
                old(self).filters@,
                config.command@,
                final(self).filters@,
            ),
            config.command@.len() > 0 && !reads_files(config.command@) ==> match mustache_rendered(
                config.command@,
                old(self).data,
            ) {
                None => r is Err && final(self).filters@ == old(self).filters@,
                Some(t) => r is Ok && plain_added(old(self).filters@, t, final(self).filters@),
            },
    {
        let ghost before = self.filters@;
        let r = self.add_command(&config.command, &None);
        proof {
            if config.command@.len() > 0 {
                let rendered = choose|rendered: Result<String, FilterError>|
                    after_rendered(before, old(self).content_type@, rendered, None, r, self.filters@, self.content_type@);
                if self.filters@.len() == before.len() + 1 {
                    assert(self.filters@.take(before.len() as int) =~= self.filters@.drop_last());
                }
            } else {
                assert(self.filters@.take(before.len() as int) =~= before);
            }
            if self.filters@ == before {
                assert(self.filters@.take(before.len() as int) =~= before);
            }
        }
        r
    }

    /// Adds the pre-filters of the names, in order, skipping names that no
    /// pre-filter has; stops at the first error.  Gives the number of
    /// filters.
    pub fn add_pre_filters(&mut self, pre_filters: &Vec<(String, FilterConfig)>, names: &[String]) -> (r: Result<
        usize,
        FilterError,
    >)
        requires
            old(self).filters@.len() + names@.len() < usize::MAX,
            pre_render_safe(pre_filters@, names@, old(self).data),
        ensures
            final(self).data == old(self).data,
            final(self).content_type@ == old(self).content_type@,
            final(self).filters@.len() >= old(self).filters@.len(),
            final(self).filters@.take(old(self).filters@.len() as int) == old(self).filters@,
            final(self).filters@.len() <= old(self).filters@.len() + names@.len(),
            r matches Ok(n) ==> n == final(self).filters@.len(),
            (forall|i: int| 0 <= i < names@.len() ==> named_position(pre_filters@, (#[trigger] names@[i])@) < 0 || pre_filters@[named_position(pre_filters@, names@[i]@)].1.command@.len() == 0) ==> r == Ok::<usize, FilterError>(old(self).filters@.len() as usize) && final(self).filters@ == old(self).filters@,
            pre_plain(pre_filters@, names@) ==> r is Ok && (texts(final(self).filters@), final(self).content_type@)
                == plain_fold(texts(old(self).filters@), old(self).content_type@, pre_steps(pre_filters@, names@)),
            pre_files_free(pre_filters@, names@) ==> match rendered_fold(
                texts(old(self).filters@),
                old(self).content_type@,
                pre_steps(pre_filters@, names@),
                old(self).data,
            ) {
                Some(res) => r is Ok && (texts(final(self).filters@), final(self).content_type@) == res,
                None => r is Err,
            },
    {
        let mut i: usize = 0;
        while i < names.len()
            invariant
                i <= names@.len(),
                pre_render_safe(pre_filters@, names@, old(self).data),
                self.data == old(self).data,
                self.content_type@ == old(self).content_type@,
                self.filters@.len() >= old(self).filters@.len(),
                self.filters@.take(old(self).filters@.len() as int) == old(self).filters@,
                self.filters@.len() <= old(self).filters@.len() + i,
                old(self).filters@.len() + names@.len() < usize::MAX,
                (forall|j: int| 0 <= j < i ==> named_position(pre_filters@, (#[trigger] names@[j])@) < 0 || pre_filters@[named_position(pre_filters@, names@[j]@)].1.command@.len() == 0) ==> self.filters@ == old(self).filters@,
                pre_plain(pre_filters@, names@) ==> (texts(self.filters@), self.content_type@) == plain_fold(
                    texts(old(self).filters@),
                    old(self).content_type@,
                    pre_steps(pre_filters@, names@.take(i as int)),
                ),
                pre_files_free(pre_filters@, names@) ==> rendered_fold(
                    texts(old(self).filters@),
                    old(self).content_type@,
                    pre_steps(pre_filters@, names@.take(i as int)),
                    old(self).data,
                ) == Some((texts(self.filters@), self.content_type@)),
            decreases names@.len() - i,
        {
            proof {
                lemma_named_position(pre_filters@, names@[i as int]@);
                assert(names@.take(i as int + 1).drop_last() =~= names@.take(i as int));
                assert(names@.take(i as int + 1).last() == names@[i as int]);
            }
            let ghost mid = self.filters@;
            let ghost mid_type = self.content_type@;
            let found = find_named(pre_filters, &names[i]);
            proof {
                if found is None {
                    assert(pre_steps(pre_filters@, names@.take(i as int + 1)) == pre_steps(pre_filters@, names@.take(i as int)));
                }
            }
            if let Some(k) = found {
                assert(render_safe(pre_filters@[k as int].1.command@, self.data));
                let r = self.add_builtin(&pre_filters[k].1);
                proof {
                    assert(self.filters@.take(old(self).filters@.len() as int) =~= mid.take(old(self).filters@.len() as int)) by {
                        assert(self.filters@.take(mid.len() as int) == mid);
                    }
                    if pre_plain(pre_filters@, names@) {
                        let cmd = pre_filters@[k as int].1.command@;
                        assert(!has_tag_open(cmd));
                        let steps = pre_steps(pre_filters@, names@.take(i as int + 1));
                        let prev_steps = pre_steps(pre_filters@, names@.take(i as int));
                        assert(steps == prev_steps.push((cmd, None)));
                        assert(steps.drop_last() =~= prev_steps);
                        if cmd.len() > 0 && str_trimmed(cmd).len() > 0 {
                            assert(texts(self.filters@) =~= texts(mid).push(str_trimmed(cmd)));
                        } else {
                            assert(self.filters@ == mid);
                        }
                    }
                    if pre_files_free(pre_filters@, names@) {
                        let cmd = pre_filters@[k as int].1.command@;
                        assert(!reads_files(cmd));
                        let steps = pre_steps(pre_filters@, names@.take(i as int + 1));
                        let prev_steps = pre_steps(pre_filters@, names@.take(i as int));
                        assert(steps == prev_steps.push((cmd, None)));
                        assert(steps.drop_last() =~= prev_steps);
                        let d = old(self).data;
                        let f0 = texts(old(self).filters@);
                        let c0 = old(self).content_type@;
                        if cmd.len() > 0 {
                            match mustache_rendered(cmd, d) {
                                Some(t) => {
                                    if str_trimmed(t).len() > 0 {
                                        assert(texts(self.filters@) =~= texts(mid).push(str_trimmed(t)));
                                    }
                                },
                                None => {
                                    assert(rendered_fold(f0, c0, steps, d) is None);
                                    lemma_pre_steps_append(pre_filters@, names@.take(i as int + 1), names@.skip(i as int + 1));
                                    assert(names@.take(i as int + 1) + names@.skip(i as int + 1) =~= names@);
                                    lemma_rendered_fold_append(f0, c0, steps, pre_steps(pre_filters@, names@.skip(i as int + 1)), d);
                                },
                            }
                        }
                    }
                }
                if let Err(e) = r {
                    return Err(e);
                }
            }
            i = i + 1;
        }
        proof {
            assert(names@.take(names@.len() as int) =~= names@);
        }
        Ok(self.filters.len())
    }

    /// Adds the post-filters of the names, in order, skipping names that no
    /// post-filter has; a post-filter that adds a command sets the content
    /// type when it has one.  Stops at the first error.  Gives the number of
    /// filters.
    pub fn add_post_filters(&mut self, post_filters: &Vec<(String, PostFilterConfig)>, names: &[String]) -> (r: Result<
        usize,
        FilterError,
    >)
        requires
            old(self).filters@.len() + names@.len() < usize::MAX,
            post_render_safe(post_filters@, names@, old(self).data),
        ensures
            final(self).data == old(self).data,
            final(self).filters@.len() >= old(self).filters@.len(),
            final(self).filters@.take(old(self).filters@.len() as int) == old(self).filters@,
            final(self).filters@.len() <= old(self).filters@.len() + names@.len(),
            r matches Ok(n) ==> n == final(self).filters@.len(),
            final(self).filters@ == old(self).filters@ ==> final(self).content_type@ == old(self).content_type@,
            post_plain(post_filters@, names@) ==> r is Ok && (texts(final(self).filters@), final(self).content_type@)
                == plain_fold(texts(old(self).filters@), old(self).content_type@, post_steps(post_filters@, names@)),
            post_files_free(post_filters@, names@) ==> match rendered_fold(
                texts(old(self).filters@),
                old(self).content_type@,
                post_steps(post_filters@, names@),
                old(self).data,
            ) {
                Some(res) => r is Ok && (texts(final(self).filters@), final(self).content_type@) == res,
                None => r is Err,
            },
    {
        let mut i: usize = 0;
        while i < names.len()
            invariant
                i <= names@.len(),
                post_render_safe(post_filters@, names@, old(self).data),
                self.data == old(self).data,
                self.filters@.len() >= old(self).filters@.len(),
                self.filters@.take(old(self).filters@.len() as int) == old(self).filters@,
                self.filters@.len() <= old(self).filters@.len() + i,
                old(self).filters@.len() + names@.len() < usize::MAX,
                self.filters@.len() == old(self).filters@.len() ==> self.content_type@ == old(self).content_type@,
                post_plain(post_filters@, names@) ==> (texts(self.filters@), self.content_type@) == plain_fold(
                    texts(old(self).filters@),
                    old(self).content_type@,
                    post_steps(post_filters@, names@.take(i as int)),
                ),
                post_files_free(post_filters@, names@) ==> rendered_fold(
                    texts(old(self).filters@),
                    old(self).content_type@,
                    post_steps(post_filters@, names@.take(i as int)),
                    old(self).data,
                ) == Some((texts(self.filters@), self.content_type@)),
            decreases names@.len() - i,
        {
            proof {
                lemma_named_position(post_filters@, names@[i as int]@);
                assert(names@.take(i as int + 1).drop_last() =~= names@.take(i as int));
                assert(names@.take(i as int + 1).last() == names@[i as int]);
            }
            let found = find_named(post_filters, &names[i]);
            proof {
                if found is None {
                    assert(post_steps(post_filters@, names@.take(i as int + 1)) == post_steps(post_filters@, names@.take(i as int)));
                }
            }
            if let Some(k) = found {
                let config = &post_filters[k].1;
                let ghost mid = self.filters@;
                let ghost mid_type = self.content_type@;
                assert(render_safe(config.command@, self.data));
                let r = self.add_command(&config.command, &config.content_type);
                proof {
                    if post_plain(post_filters@, names@) {
                        let cmd = config.command@;
                        assert(!has_tag_open(cmd));
                        let steps = post_steps(post_filters@, names@.take(i as int + 1));
                        let prev_steps = post_steps(post_filters@, names@.take(i as int));
                        assert(steps == prev_steps.push((cmd, opt_text(config.content_type))));
                        assert(steps.drop_last() =~= prev_steps);
                        if cmd.len() > 0 && str_trimmed(cmd).len() > 0 {
                            assert(texts(self.filters@) =~= texts(mid).push(str_trimmed(cmd)));
                        } else {
                            assert(self.filters@ == mid);
                        }
                    }
                    if post_files_free(post_filters@, names@) {
                        let cmd = config.command@;
                        assert(!reads_files(cmd));
                        let steps = post_steps(post_filters@, names@.take(i as int + 1));
                        let prev_steps = post_steps(post_filters@, names@.take(i as int));
                        assert(steps == prev_steps.push((cmd, opt_text(config.content_type))));
                        assert(steps.drop_last() =~= prev_steps);
                        let d = old(self).data;
                        let f0 = texts(old(self).filters@);
                        let c0 = old(self).content_type@;
                        if cmd.len() > 0 {
                            match mustache_rendered(cmd, d) {
                                Some(t) => {
                                    if str_trimmed(t).len() > 0 {
                                        assert(texts(self.filters@) =~= texts(mid).push(str_trimmed(t)));
                                    }
                                },
                                None => {
                                    assert(rendered_fold(f0, c0, steps, d) is None);
                                    lemma_post_steps_append(post_filters@, names@.take(i as int + 1), names@.skip(i as int + 1));
                                    assert(names@.take(i as int + 1) + names@.skip(i as int + 1) =~= names@);
                                    lemma_rendered_fold_append(f0, c0, steps, post_steps(post_filters@, names@.skip(i as int + 1)), d);
                                },
                            }
                        }
                    }
                    if config.command@.len() > 0 {
                        let ct = opt_text(config.content_type);
                        let rendered = choose|rendered: Result<String, FilterError>|
                            after_rendered(mid, mid_type, rendered, ct, r, self.filters@, self.content_type@);
                        if self.filters@.len() == mid.len() + 1 {
                            assert(self.filters@.take(mid.len() as int) =~= self.filters@.drop_last());
                        } else {
                            assert(self.filters@ == mid);
                        }
                    }
                    assert(self.filters@.take(mid.len() as int) =~= mid) by {
                        if self.filters@.len() == mid.len() + 1 {
                            assert(self.filters@.take(mid.len() as int) =~= self.filters@.drop_last());
                        }
                    }
                    assert(self.filters@.take(old(self).filters@.len() as int) =~= mid.take(old(self).filters@.len() as int));
                }
                if let Err(e) = r {
                    return Err(e);
                }
            }
            i = i + 1;
        }
        proof {
            assert(names@.take(names@.len() as int) =~= names@);
        }
        Ok(self.filters.len())
    }
}


/// A template rendered with data, as the commands of the jobs are.  A
/// template without a tag renders as itself.
pub fn render_command(template: &str, data: &TemplateData) -> (r: Result<String, FilterError>)
    requires
        render_safe(template@, *data),
    ensures
        !has_tag_open(template@) ==> r is Ok && r->Ok_0@ == template@,
        !reads_files(template@) ==> match r {
            Ok(t) => mustache_rendered(template@, *data) == Some(t@),
            Err(_) => mustache_rendered(template@, *data) is None,
        },
{
    render_template(template, data)
}

/// Whether `d` is the list of the identifiers in decimal.
pub open spec fn sid_list(d: TemplateData, sids: Seq<Sid>) -> bool {
    d matches TemplateData::List(items) && items@.len() == sids.len() && forall|i: int|
        0 <= i < sids.len() ==> (#[trigger] items@[i] matches TemplateData::Str(s) && s@ == decimal(
            sids[i]@ as nat,
        ))
}

fn sid_texts(sids: &Vec<Sid>) -> (r: TemplateData)
    ensures
        sid_list(r, sids@),
{
    let mut items: Vec<TemplateData> = Vec::new();
    let mut i: usize = 0;
    while i < sids.len()
        invariant
            i <= sids@.len(),
            items@.len() == i,
            forall|j: int| 0 <= j < i ==> (#[trigger] items@[j] matches TemplateData::Str(s) && s@ == decimal(
                sids@[j]@ as nat,
            )),
        decreases sids@.len() - i,
    {
        items.push(TemplateData::Str(to_decimal(sids[i].value() as u64)));
        i = i + 1;
    }
    TemplateData::List(items)
}

/// The data of the commands of the jobs on a channel: its services as
/// "sids" and its excluded services as "xsids", in decimal.
pub fn channel_command_data(channel: &EpgChannel) -> (r: TemplateData)
    ensures
        r matches TemplateData::Fields(f) && f@.len() == 2 && f@[0].0@ == "sids"@ && sid_list(
            f@[0].1,
            channel.services@,
        ) && f@[1].0@ == "xsids"@ && sid_list(f@[1].1, channel.excluded_services@),
{
    let sids = sid_texts(&channel.services);
    let xsids = sid_texts(&channel.excluded_services);
    let mut f: Vec<(String, TemplateData)> = Vec::new();
    f.push((String::from_str("sids"), sids));
    f.push((String::from_str("xsids"), xsids));
    TemplateData::Fields(f)
}

/// The data of the command of an on-air program tracker: the service as
/// "sid", in decimal.
pub fn sid_command_data(sid: Sid) -> (r: TemplateData)
    ensures
        r matches TemplateData::Fields(f) && f@.len() == 1 && f@[0].0@ == "sid"@ && (f@[0].1 matches TemplateData::Str(
            s,
        ) && s@ == decimal(sid@ as nat)),
{
    let mut f: Vec<(String, TemplateData)> = Vec::new();
    f.push((String::from_str("sid"), TemplateData::Str(to_decimal(sid.value() as u64))));
    TemplateData::Fields(f)
}

} // verus!
