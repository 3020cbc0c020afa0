//! Content nodes: one unit each of the final ordered document tree, with
//! their classification against the snapshot and their materialization into
//! rendered markup.

use vstd::prelude::*;
use vstd::string::StrSliceExecFns;
use vstd::string::StringExecFns;

use crate::error::BuildError;
use crate::error::ErrorModel;
use crate::paths::ext_of;
use crate::paths::has_root;
use crate::paths::has_root_str;
use crate::paths::is_ext;
use crate::paths::join;
use crate::paths::join_str;
use crate::paths::stem_of;
use crate::paths::stem_str;
use crate::snapshot::FileModel;
use crate::snapshot::SnapModel;
use crate::snapshot::Snapshot;
use crate::snapshot::SnapshotFile;
use crate::text::eq_lower;
use crate::text::lower_seq;
use crate::text::str_eq;
use crate::text::text_title;
use crate::text::title_string;
use crate::text::ws_trim;
use crate::text::ws_trim_str;
use crate::titles::get_title_from_file;
use crate::titles::is_index_file;
use crate::titles::is_index_stem;
use crate::titles::title_from_file_spec;

verus! {

/// One item of the final ordered tree: a heading, a break, a link, or an
/// entry backed by a file, a directory or inline markdown.
#[derive(Debug, Clone)]
pub struct Content {
    /// Marks the node as a heading in the menu; a heading carries a label.
    pub is_heading: Option<bool>,
    /// Marks the node as a line break in the menu.
    pub is_break: Option<bool>,
    /// The label the node is shown under in the menu.
    pub label: Option<String>,
    /// The URL of an external link; such a node is never materialized.
    pub url: Option<String>,
    /// The raw markdown of the node, usually read from its file.
    pub markdown: Option<String>,
    /// The rendered markup, normally converted from `markdown`.
    pub html: Option<String>,
    /// The path of the markdown or markup file backing the node.
    pub file: Option<String>,
    /// The path of a directory the node stands in for until expansion.
    pub dir: Option<String>,
}

/// The structural role a classified file plays.
#[derive(Debug, Clone, Copy, PartialEq, Eq, Structural)]
pub enum ContentType {
    Normal,
    Main,
    Footer,
    Header,
}

/// The mathematical value of a content node.
#[verifier::ext_equal]
pub struct ContentModel {
    pub is_heading: Option<bool>,
    pub is_break: Option<bool>,
    pub label: Option<Seq<char>>,
    pub url: Option<Seq<char>>,
    pub markdown: Option<Seq<char>>,
    pub html: Option<Seq<char>>,
    pub file: Option<Seq<char>>,
    pub dir: Option<Seq<char>>,
}

impl View for Content {
    type V = ContentModel;

    open spec fn view(&self) -> ContentModel {
        ContentModel {
            is_heading: self.is_heading,
            is_break: self.is_break,
            label: self.label.deep_view(),
            url: self.url.deep_view(),
            markdown: self.markdown.deep_view(),
            html: self.html.deep_view(),
            file: self.file.deep_view(),
            dir: self.dir.deep_view(),
        }
    }
}

impl DeepView for Content {
    type V = ContentModel;

    open spec fn deep_view(&self) -> ContentModel {
        self.view()
    }
}

/// The model of a synthesized heading node.
pub open spec fn heading_model(label: Seq<char>) -> ContentModel {
    ContentModel {
        is_heading: Some(true),
        is_break: Some(false),
        label: Some(label),
        url: None,
        markdown: None,
        html: None,
        file: None,
        dir: None,
    }
}

/// The model of a synthesized separator node.
pub open spec fn break_model() -> ContentModel {
    ContentModel {
        is_heading: Some(false),
        is_break: Some(true),
        label: None,
        url: None,
        markdown: None,
        html: None,
        file: None,
        dir: None,
    }
}

fn opt_str_dup(o: &Option<String>) -> (r: Option<String>)
    ensures
        r.deep_view() == o.deep_view(),
{
    match o {
        Some(s) => Some(s.clone()),
        None => None,
    }
}

fn opt_str_eq(a: &Option<String>, b: &Option<String>) -> (r: bool)
    ensures
        r == (a.deep_view() == b.deep_view()),
{
    match (a, b) {
        (Some(x), Some(y)) => str_eq(x.as_str(), y.as_str()),
        (None, None) => true,
        _ => false,
    }
}

fn opt_bool_eq(a: &Option<bool>, b: &Option<bool>) -> (r: bool)
    ensures
        r == (*a == *b),
{
    match (a, b) {
        (Some(x), Some(y)) => *x == *y,
        (None, None) => true,
        _ => false,
    }
}

impl Content {
    /// A plain entry node backed by `file`.
    pub fn new(file: Option<String>) -> (r: Content)
        ensures
            r@ == (ContentModel {
                is_heading: Some(false),
                is_break: Some(false),
                label: None,
                url: None,
                markdown: None,
                html: None,
                file: file.deep_view(),
                dir: None,
            }),
    {
        Content {
            is_heading: Some(false),
            is_break: Some(false),
            label: None,
            markdown: None,
            html: None,
            url: None,
            dir: None,
            file,
        }
    }

    /// A heading node carrying `label`.
    pub fn new_heading(label: String) -> (r: Content)
        ensures
            r@ == heading_model(label@),
    {
        Content {
            is_heading: Some(true),
            is_break: Some(false),
            label: Some(label),
            file: None,
            dir: None,
            markdown: None,
            html: None,
            url: None,
        }
    }

    /// A separator node.
    pub fn new_break() -> (r: Content)
        ensures
            r@ == break_model(),
    {
        Content {
            is_heading: Some(false),
            is_break: Some(true),
            label: None,
            file: None,
            dir: None,
            markdown: None,
            html: None,
            url: None,
        }
    }

    /// A field-for-field copy of the node.
    pub fn duplicate(&self) -> (r: Content)
        ensures
            r@ == self@,
    {
        Content {
            is_heading: self.is_heading,
            is_break: self.is_break,
            label: opt_str_dup(&self.label),
            url: opt_str_dup(&self.url),
            markdown: opt_str_dup(&self.markdown),
            html: opt_str_dup(&self.html),
            file: opt_str_dup(&self.file),
            dir: opt_str_dup(&self.dir),
        }
    }
}

impl PartialEq for Content {
    /// Nodes compare by their presentation fields; the `file` and `dir`
    /// sources are left out of the comparison.
    fn eq(&self, other: &Content) -> (r: bool) {
        opt_bool_eq(&self.is_heading, &other.is_heading) && opt_bool_eq(
            &self.is_break,
            &other.is_break,
        ) && opt_str_eq(&self.label, &other.label) && opt_str_eq(&self.url, &other.url)
            && opt_str_eq(&self.markdown, &other.markdown) && opt_str_eq(&self.html, &other.html)
    }
}

impl vstd::std_specs::cmp::PartialEqSpecImpl for Content {
    open spec fn obeys_eq_spec() -> bool {
        true
    }

    open spec fn eq_spec(&self, other: &Content) -> bool {
        &&& self@.is_heading == other@.is_heading
        &&& self@.is_break == other@.is_break
        &&& self@.label == other@.label
        &&& self@.url == other@.url
        &&& self@.markdown == other@.markdown
        &&& self@.html == other@.html
    }
}

/// The markup that converting a markdown text yields. The conversion is done
/// by an outside renderer; only that it is a function of the text is relied
/// on here.
pub uninterp spec fn html_of(markdown: Seq<char>) -> Seq<char>;

/// Relies on comrak::markdown_to_html: with a fixed option set (strikethrough,
/// autolinking, tables, tag filtering, task lists, raw markup allowed) the
/// rendered markup is a function of the markdown text alone.
#[verifier::external_body]
fn render_markdown(markdown: &str) -> (r: String)
    ensures
        r@ == html_of(markdown@),
{
    let mut options = comrak::Options::default();
    options.extension.strikethrough = true;
    options.extension.autolink = true;
    options.extension.table = true;
    options.extension.tagfilter = true;
    options.extension.tasklist = true;
    options.render.unsafe_ = true;
    comrak::markdown_to_html(markdown, &options)
}

/// The markdown document extension.
pub open spec fn md_ext() -> Seq<char> {
    seq!['m', 'd']
}

/// The first pre-rendered markup extension.
pub open spec fn html_ext() -> Seq<char> {
    seq!['h', 't', 'm', 'l']
}

/// The second pre-rendered markup extension.
pub open spec fn htm_ext() -> Seq<char> {
    seq!['h', 't', 'm']
}

/// Whether a path names a markdown document.
pub open spec fn is_md(p: Seq<char>) -> bool {
    lower_seq(ext_of(p)) == md_ext()
}

/// Whether a path names a pre-rendered markup document.
pub open spec fn is_markup(p: Seq<char>) -> bool {
    lower_seq(ext_of(p)) == html_ext() || lower_seq(ext_of(p)) == htm_ext()
}

/// Decides whether `path` has the markdown extension.
pub fn is_md_path(path: &str) -> (r: bool)
    ensures
        r == is_md(path@),
{
    let r = is_ext(path, "md");
    proof {
        reveal_strlit("md");
        assert("md"@ =~= md_ext());
        assert(lower_seq(md_ext()) =~= md_ext());
    }
    r
}

/// Decides whether `path` has a pre-rendered markup extension.
pub fn is_markup_path(path: &str) -> (r: bool)
    ensures
        r == is_markup(path@),
{
    let a = is_ext(path, "html");
    let b = is_ext(path, "htm");
    proof {
        reveal_strlit("html");
        reveal_strlit("htm");
        assert("html"@ =~= html_ext());
        assert("htm"@ =~= htm_ext());
        assert(lower_seq(html_ext()) =~= html_ext());
        assert(lower_seq(htm_ext()) =~= htm_ext());
    }
    a || b
}

/// What resolving `p` against `root` yields: the root-relative join when the
/// root is absolute and `p` relative, checked to exist in the snapshot;
/// otherwise `p` unchanged.
pub open spec fn resolve_spec(m: SnapModel, root: Seq<char>, p: Seq<char>) -> Result<
    Seq<char>,
    ErrorModel,
> {
    if has_root(root) && !has_root(p) {
        let j = join(root, p);
        if m.exists_path(j) {
            Ok(j)
        } else {
            Err(ErrorModel::PathResolution { path: j })
        }
    } else {
        Ok(p)
    }
}

/// Resolves a possibly root-relative path against the snapshot.
pub(crate) fn resolve_path(fs: &Snapshot, root: &str, p: &str) -> (r: Result<String, BuildError>)
    ensures
        resolve_spec(fs@, root@, p@) matches Ok(q) ==> (r matches Ok(rq) && rq@ == q),
        resolve_spec(fs@, root@, p@) matches Err(e) ==> (r matches Err(re) && re@ == e),
{
    if has_root_str(root) && !has_root_str(p) {
        let j = join_str(root, p);
        let found = match fs.find_file(j.as_str()) {
            Some(_) => true,
            None => fs.contains_dir(j.as_str()),
        };
        if found {
            Ok(j)
        } else {
            Err(BuildError::PathResolution { path: j })
        }
    } else {
        Ok(p.to_owned())
    }
}

/// What initializing a node's label from its file yields: for a markdown
/// file, a node whose unset label is filled by title inference against the
/// resolved path; otherwise the node unchanged.
pub open spec fn init_from_file_spec(m: SnapModel, root: Seq<char>, c: ContentModel) -> Result<
    ContentModel,
    ErrorModel,
> {
    match c.file {
        None => Ok(c),
        Some(p) => match resolve_spec(m, root, p) {
            Err(e) => Err(e),
            Ok(rp) => {
                if is_md(rp) && c.label is None {
                    match title_from_file_spec(m, rp, true) {
                        Err(e) => Err(e),
                        Ok(t) => Ok(ContentModel { label: t, ..c }),
                    }
                } else {
                    Ok(c)
                }
            },
        },
    }
}

impl Content {
    /// Initializes the label from the file property if present: resolves the
    /// path against the root and, for a markdown file with no label yet,
    /// derives the label by title inference.
    pub fn init_from_file(&mut self, fs: &Snapshot, root: &str) -> (r: Result<(), BuildError>)
        ensures
            init_from_file_spec(fs@, root@, old(self)@) matches Ok(d) ==> (r matches Ok(())
                && final(self)@ == d),
            init_from_file_spec(fs@, root@, old(self)@) matches Err(e) ==> (r matches Err(re)
                && re@ == e && final(self)@ == old(self)@),
    {
        let p = match &self.file {
            None => {
                return Ok(());
            },
            Some(p) => p.clone(),
        };
        let rp = match resolve_path(fs, root, p.as_str()) {
            Ok(q) => q,
            Err(e) => {
                return Err(e);
            },
        };
        if is_md_path(rp.as_str()) && self.label.is_none() {
            match get_title_from_file(fs, rp.as_str(), true) {
                Ok(t) => {
                    self.label = t;
                    Ok(())
                },
                Err(e) => Err(e),
            }
        } else {
            proof {
                assert(ContentModel { label: old(self)@.label, ..old(self)@ } =~= old(self)@);
            }
            Ok(())
        }
    }
}

/// The conversion step of materialization: a node with markdown but no
/// markup yet takes the converted markup.
pub open spec fn convert_step(c: ContentModel) -> ContentModel {
    if c.html is None && c.markdown is Some {
        ContentModel { html: Some(html_of(c.markdown->0)), ..c }
    } else {
        c
    }
}

/// What materializing a node yields. A node with a URL, with markup already
/// set, or with neither file nor markdown is left alone. Otherwise the
/// node's file, if any, is resolved and read: a markdown or markup file
/// fills the unset label and, when its trimmed text is non-empty, the
/// markdown or markup field; a file of any other extension is ignored.
/// Finally markdown still lacking markup is converted.
pub open spec fn fill_spec(m: SnapModel, root: Seq<char>, c: ContentModel) -> Result<
    ContentModel,
    ErrorModel,
> {
    if c.url is Some || c.html is Some || (c.file is None && c.markdown is None) {
        Ok(c)
    } else if c.file is Some {
        match resolve_spec(m, root, c.file->0) {
            Err(e) => Err(e),
            Ok(rp) => {
                if is_md(rp) || is_markup(rp) {
                    let lres: Result<Option<Seq<char>>, ErrorModel> = if c.label is None {
                        if is_md(rp) {
                            title_from_file_spec(m, rp, true)
                        } else {
                            Ok(Some(stem_of(rp)))
                        }
                    } else {
                        Ok(c.label)
                    };
                    match lres {
                        Err(e) => Err(e),
                        Ok(lab) => match m.file_content(rp) {
                            None => Err(ErrorModel::Io { path: rp }),
                            Some(content) => {
                                let t = ws_trim(content);
                                let c1 = ContentModel { label: lab, ..c };
                                let c2 = if t.len() > 0 {
                                    if is_md(rp) {
                                        ContentModel { markdown: Some(t), ..c1 }
                                    } else {
                                        ContentModel { html: Some(t), ..c1 }
                                    }
                                } else {
                                    c1
                                };
                                Ok(convert_step(c2))
                            },
                        },
                    }
                } else {
                    Ok(convert_step(c))
                }
            },
        }
    } else {
        Ok(convert_step(c))
    }
}

/// Fills the content based on the properties: reads the node's file into its
/// markdown or markup field as the extension asks, infers a missing label,
/// and converts markdown into markup. Does nothing for a node with a URL,
/// with markup already present, or with neither file nor markdown.
pub fn fill_content(c: &mut Content, fs: &Snapshot, root: &str) -> (r: Result<(), BuildError>)
    ensures
        fill_spec(fs@, root@, old(c)@) matches Ok(d) ==> (r matches Ok(()) && final(c)@ == d),
        fill_spec(fs@, root@, old(c)@) matches Err(e) ==> (r matches Err(re) && re@ == e
            && final(c)@ == old(c)@),
{
    if c.url.is_some() || c.html.is_some() || (c.file.is_none() && c.markdown.is_none()) {
        return Ok(());
    }
    let file_path = opt_str_dup(&c.file);
    if let Some(p) = file_path {
        let rp = match resolve_path(fs, root, p.as_str()) {
            Ok(q) => q,
            Err(e) => {
                return Err(e);
            },
        };
        let mdx = is_md_path(rp.as_str());
        let markupx = is_markup_path(rp.as_str());
        if mdx || markupx {
            let new_label: Option<String> = if c.label.is_none() {
                if mdx {
                    match get_title_from_file(fs, rp.as_str(), true) {
                        Ok(t) => t,
                        Err(e) => {
                            return Err(e);
                        },
                    }
                } else {
                    Some(stem_str(rp.as_str()).to_owned())
                }
            } else {
                opt_str_dup(&c.label)
            };
            let content = match fs.find_file(rp.as_str()) {
                None => {
                    return Err(BuildError::Io { path: rp });
                },
                Some(f) => &f.content,
            };
            let trimmed = ws_trim_str(content.as_str());
            let nonempty = trimmed.unicode_len() > 0;
            let trimmed_s = trimmed.to_owned();
            c.label = new_label;
            if nonempty {
                if mdx {
                    c.markdown = Some(trimmed_s);
                } else {
                    c.html = Some(trimmed_s);
                }
            }
        }
    }
    if c.html.is_none() && c.markdown.is_some() {
        let html = match &c.markdown {
            Some(md) => render_markdown(md.as_str()),
            None => String::new(),
        };
        c.html = Some(html);
    }
    Ok(())
}

/// A node materialization succeeded on is a fixed point: materializing it
/// again changes nothing and cannot fail.
pub proof fn lemma_fill_idempotent(m: SnapModel, root: Seq<char>, c: ContentModel, d: ContentModel)
    requires
        fill_spec(m, root, c) == Ok::<ContentModel, ErrorModel>(d),
    ensures
        fill_spec(m, root, d) == Ok::<ContentModel, ErrorModel>(d),
{
    if c.url is Some || c.html is Some || (c.file is None && c.markdown is None) {
    } else if c.file is Some {
        match resolve_spec(m, root, c.file->0) {
            Err(_) => {},
            Ok(rp) => {
                if is_md(rp) || is_markup(rp) {
                    match m.file_content(rp) {
                        None => {},
                        Some(content) => {
                            let t = ws_trim(content);
                            if t.len() == 0 && c.markdown is None {
                                assert(d.file == c.file);
                                assert(d.url is None && d.html is None && d.markdown is None);
                                assert(d.label is Some);
                                assert(fill_spec(m, root, d) == Ok::<ContentModel, ErrorModel>(
                                    ContentModel { label: d.label, ..d },
                                ));
                                assert(ContentModel { label: d.label, ..d } =~= d);
                            }
                        },
                    }
                } else {
                    if c.markdown is None {
                        assert(d == c);
                        assert(convert_step(d) == d);
                    }
                }
            },
        }
    } else {
    }
}

/// Materialization never touches a node's directory reference.
pub proof fn lemma_fill_preserves_dir(m: SnapModel, root: Seq<char>, c: ContentModel)
    ensures
        fill_spec(m, root, c) matches Ok(d) ==> d.dir == c.dir,
{
}

/// The footer stem.
pub open spec fn footer_name() -> Seq<char> {
    seq!['f', 'o', 'o', 't', 'e', 'r']
}

/// The header stem.
pub open spec fn header_name() -> Seq<char> {
    seq!['h', 'e', 'a', 'd', 'e', 'r']
}

/// The label a classified entry gets: the title of its text, or its stem.
pub open spec fn entry_label(f: FileModel) -> Seq<char> {
    match text_title(f.content) {
        Some(t) => t,
        None => stem_of(f.path),
    }
}

/// What classifying one file yields. A markdown file — or, when structural
/// roles are not checked, a pre-rendered markup file — becomes an entry
/// node; any other file is rejected. A markdown entry takes its label at
/// once. With role checking on, the stem decides the role: header and footer
/// by name, main by the index rule, each file to at most one role.
pub open spec fn classify_spec(f: FileModel, check_type: bool) -> Option<
    (ContentModel, ContentType),
> {
    if is_md(f.path) || (!check_type && is_markup(f.path)) {
        let label = if is_md(f.path) {
            Some(entry_label(f))
        } else {
            None
        };
        let c = ContentModel {
            is_heading: None,
            is_break: None,
            label,
            url: None,
            markdown: None,
            html: None,
            file: Some(f.path),
            dir: None,
        };
        let ct = if check_type {
            if lower_seq(stem_of(f.path)) == header_name() {
                ContentType::Header
            } else if lower_seq(stem_of(f.path)) == footer_name() {
                ContentType::Footer
            } else if is_index_stem(f.path) {
                ContentType::Main
            } else {
                ContentType::Normal
            }
        } else {
            ContentType::Normal
        };
        Some((c, ct))
    } else {
        None
    }
}

/// Initializes directory entry content: fills in the file and label and
/// determines the structural role the entry plays.
pub fn init_entry_contents(f: &SnapshotFile, check_type: bool) -> (r: Option<
    (Content, ContentType),
>)
    ensures
        (r is Some) == (classify_spec(f@, check_type) is Some),
        r matches Some(p) ==> (classify_spec(f@, check_type) matches Some(q) && p.0@ == q.0 && p.1
            == q.1),
{
    let mdx = is_md_path(f.path.as_str());
    let markupx = is_markup_path(f.path.as_str());
    if mdx || (!check_type && markupx) {
        let label: Option<String> = if mdx {
            match title_string(f.content.as_str()) {
                Some(t) => Some(t),
                None => Some(stem_str(f.path.as_str()).to_owned()),
            }
        } else {
            None
        };
        let c = Content {
            is_heading: None,
            is_break: None,
            label,
            url: None,
            markdown: None,
            html: None,
            file: Some(f.path.clone()),
            dir: None,
        };
        let st = stem_str(f.path.as_str());
        let ct = if check_type {
            proof {
                reveal_strlit("header");
                reveal_strlit("footer");
                assert("header"@ =~= header_name());
                assert("footer"@ =~= footer_name());
                assert(lower_seq(header_name()) =~= header_name());
                assert(lower_seq(footer_name()) =~= footer_name());
            }
            if eq_lower(st, "header") {
                ContentType::Header
            } else if eq_lower(st, "footer") {
                ContentType::Footer
            } else if is_index_file(f) {
                ContentType::Main
            } else {
                ContentType::Normal
            }
        } else {
            ContentType::Normal
        };
        Some((c, ct))
    } else {
        None
    }
}

} // verus!
