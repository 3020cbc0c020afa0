//! The document tree being built: configuration fields, the computed
//! default tree, the merge of an override over it, directory-node
//! expansion, and the materialization of every node.

use vstd::prelude::*;
use vstd::string::StrSliceExecFns;
use vstd::string::StringExecFns;

use crate::content::Content;
use crate::content::ContentModel;
use crate::content::ContentType;
use crate::content::break_model;
use crate::content::classify_spec;
use crate::content::fill_content;
use crate::content::fill_spec;
use crate::content::init_entry_contents;
use crate::content::init_from_file_spec;
use crate::content::is_md;
use crate::content::resolve_spec;
use crate::error::BuildError;
use crate::error::ErrorModel;
use crate::paths::join;
use crate::paths::join_str;
use crate::snapshot::FileModel;
use crate::snapshot::SnapModel;
use crate::snapshot::Snapshot;
use crate::snapshot::files_in;
use crate::text::str_eq;
use crate::titles::build_title_for_dir;
use crate::titles::dir_title_spec;
use crate::tree::dir_file_entries;
use crate::tree::dir_sections_spec;
use crate::tree::init_dir_sections;
use crate::tree::normal_entries;
use crate::tree::sort_by_file;
use crate::tree::sort_contents;
use crate::tree::sorted_by_file;
use crate::tree::lemma_sort_by_file_sorted;

verus! {

/// The kind of a head link.
#[derive(Debug, Clone, PartialEq, Eq, Structural)]
pub enum LinkType {
    Style,
    Script,
}

/// A link to insert into the head of the generated document.
#[derive(Debug, Clone)]
pub struct Link {
    /// Link type.
    pub link_type: Option<LinkType>,
    /// The link source.
    pub src: Option<String>,
    /// Optional integrity for subresource integrity.
    pub integrity: Option<String>,
    /// Optional crossorigin for subresource integrity.
    pub crossorigin: Option<String>,
}

/// The mathematical value of a head link.
#[verifier::ext_equal]
pub struct LinkModel {
    pub link_type: Option<LinkType>,
    pub src: Option<Seq<char>>,
    pub integrity: Option<Seq<char>>,
    pub crossorigin: Option<Seq<char>>,
}

impl View for Link {
    type V = LinkModel;

    open spec fn view(&self) -> LinkModel {
        LinkModel {
            link_type: self.link_type,
            src: self.src.deep_view(),
            integrity: self.integrity.deep_view(),
            crossorigin: self.crossorigin.deep_view(),
        }
    }
}

impl DeepView for Link {
    type V = LinkModel;

    open spec fn deep_view(&self) -> LinkModel {
        self.view()
    }
}

/// The name the style kind parses from.
pub open spec fn style_name() -> Seq<char> {
    seq!['s', 't', 'y', 'l', 'e']
}

/// The name both link kinds serialize the style kind to, and parse it from.
pub open spec fn stylesheet_name() -> Seq<char> {
    seq!['s', 't', 'y', 'l', 'e', 's', 'h', 'e', 'e', 't']
}

/// The name of the script kind.
pub open spec fn script_name() -> Seq<char> {
    seq!['s', 'c', 'r', 'i', 'p', 't']
}

/// The kind a link-type name denotes, if any.
pub open spec fn link_type_of(s: Seq<char>) -> Option<LinkType> {
    if s == style_name() || s == stylesheet_name() {
        Some(LinkType::Style)
    } else if s == script_name() {
        Some(LinkType::Script)
    } else {
        None
    }
}

/// The name a link kind is written as.
pub open spec fn link_type_name(t: LinkType) -> Seq<char> {
    match t {
        LinkType::Style => stylesheet_name(),
        LinkType::Script => script_name(),
    }
}

impl LinkType {
    /// Parses a link kind from its name.
    pub fn from_str(s: &str) -> (r: Option<LinkType>)
        ensures
            r == link_type_of(s@),
    {
        proof {
            reveal_strlit("style");
            reveal_strlit("stylesheet");
            reveal_strlit("script");
            assert("style"@ =~= style_name());
            assert("stylesheet"@ =~= stylesheet_name());
            assert("script"@ =~= script_name());
        }
        if str_eq(s, "style") {
            Some(LinkType::Style)
        } else if str_eq(s, "stylesheet") {
            Some(LinkType::Style)
        } else if str_eq(s, "script") {
            Some(LinkType::Script)
        } else {
            None
        }
    }

    /// The name the link kind is written as.
    pub fn as_str(&self) -> (r: &'static str)
        ensures
            r@ == link_type_name(*self),
    {
        proof {
            reveal_strlit("stylesheet");
            reveal_strlit("script");
            assert("stylesheet"@ =~= stylesheet_name());
            assert("script"@ =~= script_name());
        }
        match self {
            LinkType::Style => "stylesheet",
            LinkType::Script => "script",
        }
    }
}

/// The configuration and template data of one document build.
#[derive(Debug, Clone)]
pub struct Data {
    /// Whether to do a full page or not.
    pub full_page: Option<bool>,
    /// Title used in the header and title of the document.
    pub title: Option<String>,
    /// Subtitle used in the header.
    pub subtitle: Option<String>,
    /// Author used in metadata.
    pub author: Option<String>,
    /// The favicon link.
    pub icon: Option<String>,
    /// The main content used for the front page.
    pub main: Option<Content>,
    /// The content of the document.
    pub contents: Option<Vec<Content>>,
    /// The custom JavaScript to be added in the script tag.
    pub script: Option<String>,
    /// The custom CSS to be added in the style tag.
    pub style: Option<String>,
    /// The custom style and script links.
    pub links: Option<Vec<Link>>,
    /// Custom header content.
    pub header: Option<Content>,
    /// Custom footer content.
    pub footer: Option<Content>,
}

/// The mathematical value of the document tree.
#[verifier::ext_equal]
pub struct DataModel {
    pub full_page: Option<bool>,
    pub title: Option<Seq<char>>,
    pub subtitle: Option<Seq<char>>,
    pub author: Option<Seq<char>>,
    pub icon: Option<Seq<char>>,
    pub main: Option<ContentModel>,
    pub contents: Option<Seq<ContentModel>>,
    pub script: Option<Seq<char>>,
    pub style: Option<Seq<char>>,
    pub links: Option<Seq<LinkModel>>,
    pub header: Option<ContentModel>,
    pub footer: Option<ContentModel>,
}

impl View for Data {
    type V = DataModel;

    open spec fn view(&self) -> DataModel {
        DataModel {
            full_page: self.full_page,
            title: self.title.deep_view(),
            subtitle: self.subtitle.deep_view(),
            author: self.author.deep_view(),
            icon: self.icon.deep_view(),
            main: self.main.deep_view(),
            contents: self.contents.deep_view(),
            script: self.script.deep_view(),
            style: self.style.deep_view(),
            links: self.links.deep_view(),
            header: self.header.deep_view(),
            footer: self.footer.deep_view(),
        }
    }
}

/// The zero value a build starts from when no override is given.
pub open spec fn default_data_model() -> DataModel {
    DataModel {
        full_page: Some(false),
        title: None,
        subtitle: None,
        author: None,
        icon: None,
        main: None,
        contents: None,
        script: None,
        style: None,
        links: None,
        header: None,
        footer: None,
    }
}

impl Default for Data {
    /// The zero-valued tree: no field set but the full-page flag, off.
    fn default() -> (r: Data)
        ensures
            r@ == default_data_model(),
    {
        Data {
            full_page: Some(false),
            title: None,
            subtitle: None,
            author: None,
            icon: None,
            main: None,
            contents: None,
            script: None,
            style: None,
            links: None,
            footer: None,
            header: None,
        }
    }
}

/// What one scan of the root's files yields: the ordinary entries in
/// listing order and the first file of each structural role.
#[verifier::ext_equal]
pub struct ScanModel {
    pub normals: Seq<ContentModel>,
    pub main: Option<ContentModel>,
    pub footer: Option<ContentModel>,
    pub header: Option<ContentModel>,
}

/// Classifies a listing of files with role checking on: ordinary entries
/// accumulate in order; the first file of each role takes that role, and a
/// role file never joins the ordinary entries.
pub open spec fn scan_spec(files: Seq<FileModel>) -> ScanModel
    decreases files.len(),
{
    if files.len() == 0 {
        ScanModel { normals: Seq::empty(), main: None, footer: None, header: None }
    } else {
        let r = scan_spec(files.drop_last());
        match classify_spec(files.last(), true) {
            None => r,
            Some(p) => match p.1 {
                ContentType::Normal => ScanModel { normals: r.normals.push(p.0), ..r },
                ContentType::Main => if r.main is None {
                    ScanModel { main: Some(p.0), ..r }
                } else {
                    r
                },
                ContentType::Footer => if r.footer is None {
                    ScanModel { footer: Some(p.0), ..r }
                } else {
                    r
                },
                ContentType::Header => if r.header is None {
                    ScanModel { header: Some(p.0), ..r }
                } else {
                    r
                },
            },
        }
    }
}

/// The root-level entries of the computed tree, sorted by path.
pub open spec fn root_entries_spec(m: SnapModel, root: Seq<char>) -> Seq<ContentModel> {
    sort_by_file(scan_spec(files_in(m.files, root)).normals)
}

/// The computed contents: the sorted root-level entries, a separator after
/// them when there are any, then the subdirectory groups in sorted order.
pub open spec fn assembled_contents(m: SnapModel, root: Seq<char>) -> Seq<ContentModel> {
    let sorted = root_entries_spec(m, root);
    if sorted.len() > 0 {
        sorted + seq![break_model()] + dir_sections_spec(m, root)
    } else {
        sorted + dir_sections_spec(m, root)
    }
}

/// Label initialization lifted over an optional node.
pub open spec fn opt_init_spec(m: SnapModel, root: Seq<char>, c: Option<ContentModel>) -> Result<
    Option<ContentModel>,
    ErrorModel,
> {
    match c {
        None => Ok(None),
        Some(cc) => match init_from_file_spec(m, root, cc) {
            Ok(c2) => Ok(Some(c2)),
            Err(e) => Err(e),
        },
    }
}

/// What the merge of the override `d` with the computed tree yields: a set
/// field of `d` is kept — a main, header or footer node first has its label
/// resolved — and an unset field takes the computed value; reading a
/// missing root directory fails.
pub open spec fn init_spec(m: SnapModel, root: Seq<char>, d: DataModel) -> Result<
    DataModel,
    ErrorModel,
> {
    if d.title is None && !m.is_dir(root) {
        Err(ErrorModel::Io { path: root })
    } else {
        match opt_init_spec(m, root, d.main) {
            Err(e) => Err(e),
            Ok(main0) => match opt_init_spec(m, root, d.header) {
                Err(e) => Err(e),
                Ok(header0) => match opt_init_spec(m, root, d.footer) {
                    Err(e) => Err(e),
                    Ok(footer0) => {
                        if !m.is_dir(root) {
                            Err(ErrorModel::Io { path: root })
                        } else {
                            let sc = scan_spec(files_in(m.files, root));
                            Ok(
                                DataModel {
                                    title: if d.title is Some {
                                        d.title
                                    } else {
                                        Some(dir_title_spec(m, root, true))
                                    },
                                    main: if d.main is Some {
                                        main0
                                    } else {
                                        sc.main
                                    },
                                    header: if d.header is Some {
                                        header0
                                    } else {
                                        sc.header
                                    },
                                    footer: if d.footer is Some {
                                        footer0
                                    } else {
                                        sc.footer
                                    },
                                    contents: if d.contents is Some {
                                        d.contents
                                    } else {
                                        Some(assembled_contents(m, root))
                                    },
                                    ..d
                                },
                            )
                        }
                    },
                },
            },
        }
    }
}

/// What expanding one node yields: a node without a directory reference
/// passes through alone; a directory node is replaced by that directory's
/// ordinary file entries, sorted by path, followed by its subdirectories'
/// groups, after the reference is resolved and confirmed to be a directory.
pub open spec fn expand_one_spec(m: SnapModel, root: Seq<char>, c: ContentModel) -> Result<
    Seq<ContentModel>,
    ErrorModel,
> {
    match c.dir {
        None => Ok(seq![c]),
        Some(p) => match resolve_spec(m, root, p) {
            Err(e) => Err(e),
            Ok(rp) => {
                if !m.is_dir(rp) {
                    Err(ErrorModel::InvalidConfig { path: rp })
                } else {
                    Ok(sort_by_file(normal_entries(files_in(m.files, rp))) + dir_sections_spec(
                        m,
                        rp,
                    ))
                }
            },
        },
    }
}

/// Expansion over a whole run of nodes, stopping at the first failure.
pub open spec fn expand_all_spec(m: SnapModel, root: Seq<char>, cs: Seq<ContentModel>) -> Result<
    Seq<ContentModel>,
    ErrorModel,
>
    decreases cs.len(),
{
    if cs.len() == 0 {
        Ok(Seq::empty())
    } else {
        match expand_one_spec(m, root, cs[0]) {
            Err(e) => Err(e),
            Ok(h) => match expand_all_spec(m, root, cs.drop_first()) {
                Err(e) => Err(e),
                Ok(t) => Ok(h + t),
            },
        }
    }
}

/// Whether any node of a run carries a directory reference.
pub open spec fn has_dir_node(cs: Seq<ContentModel>) -> bool {
    exists|i: int| 0 <= i < cs.len() && (#[trigger] cs[i]).dir is Some
}

/// Materialization over a whole run of nodes, stopping at the first failure.
pub open spec fn fill_all_spec(m: SnapModel, root: Seq<char>, cs: Seq<ContentModel>) -> Result<
    Seq<ContentModel>,
    ErrorModel,
>
    decreases cs.len(),
{
    if cs.len() == 0 {
        Ok(Seq::empty())
    } else {
        match fill_spec(m, root, cs[0]) {
            Err(e) => Err(e),
            Ok(c2) => match fill_all_spec(m, root, cs.drop_first()) {
                Err(e) => Err(e),
                Ok(t) => Ok(seq![c2] + t),
            },
        }
    }
}

/// Materialization lifted over an optional node.
pub open spec fn opt_fill_spec(m: SnapModel, root: Seq<char>, c: Option<ContentModel>) -> Result<
    Option<ContentModel>,
    ErrorModel,
> {
    match c {
        None => Ok(None),
        Some(cc) => match fill_spec(m, root, cc) {
            Ok(c2) => Ok(Some(c2)),
            Err(e) => Err(e),
        },
    }
}

/// What the contents pass yields: the contents, if set, have their
/// directory nodes expanded — only when at least one is present — and then
/// every node materialized.
pub open spec fn contents_step_spec(m: SnapModel, root: Seq<char>, c: Option<Seq<ContentModel>>) -> Result<
    Option<Seq<ContentModel>>,
    ErrorModel,
> {
    match c {
        None => Ok(None),
        Some(cs) => {
            let er = if has_dir_node(cs) {
                expand_all_spec(m, root, cs)
            } else {
                Ok(cs)
            };
            match er {
                Err(e) => Err(e),
                Ok(cs1) => match fill_all_spec(m, root, cs1) {
                    Err(e) => Err(e),
                    Ok(cs2) => Ok(Some(cs2)),
                },
            }
        },
    }
}

/// What building the contents yields: the contents pass runs first; then
/// the main, header and footer nodes are materialized in turn.
pub open spec fn build_contents_spec(m: SnapModel, root: Seq<char>, d: DataModel) -> Result<
    DataModel,
    ErrorModel,
> {
    let cres = contents_step_spec(m, root, d.contents);
    match cres {
        Err(e) => Err(e),
        Ok(contents2) => match opt_fill_spec(m, root, d.main) {
            Err(e) => Err(e),
            Ok(main2) => match opt_fill_spec(m, root, d.header) {
                Err(e) => Err(e),
                Ok(header2) => match opt_fill_spec(m, root, d.footer) {
                    Err(e) => Err(e),
                    Ok(footer2) => Ok(
                        DataModel {
                            contents: contents2,
                            main: main2,
                            header: header2,
                            footer: footer2,
                            ..d
                        },
                    ),
                },
            },
        },
    }
}

/// What the whole build yields: the merge of the override with the computed
/// tree, then the materialization of every node.
pub open spec fn build_spec(m: SnapModel, root: Seq<char>, d: DataModel) -> Result<
    DataModel,
    ErrorModel,
> {
    match init_spec(m, root, d) {
        Err(e) => Err(e),
        Ok(d1) => build_contents_spec(m, root, d1),
    }
}

#[verifier::loop_isolation(false)]
fn clone_contents(v: &Vec<Content>) -> (r: Vec<Content>)
    ensures
        r.deep_view() == v.deep_view(),
{
    let n = v.len();
    let mut r: Vec<Content> = Vec::new();
    let mut i: usize = 0;
    while i < n
        invariant
            0 <= i <= n,
            r.deep_view() == v.deep_view().take(i as int),
        decreases n - i,
    {
        let ghost pre = r.deep_view();
        let d = v[i].duplicate();
        r.push(d);
        proof {
            assert(r.deep_view() =~= pre.push(v.deep_view()[i as int]));
            assert(pre.push(v.deep_view()[i as int]) =~= v.deep_view().take(i + 1));
        }
        i = i + 1;
    }
    proof {
        assert(v.deep_view().take(n as int) =~= v.deep_view());
    }
    r
}

impl Data {
    /// Merges this override with the tree computed from the snapshot: every
    /// set field is kept, every unset one takes the computed value.
    pub fn init(&mut self, fs: &Snapshot, root: &str) -> (r: Result<(), BuildError>)
        ensures
            init_spec(fs@, root@, old(self)@) matches Ok(dm) ==> (r matches Ok(()) && final(self)@
                == dm),
            init_spec(fs@, root@, old(self)@) matches Err(e) ==> (r matches Err(re) && re@ == e),
            final(self)@.full_page == old(self)@.full_page,
            final(self)@.subtitle == old(self)@.subtitle,
            final(self)@.author == old(self)@.author,
            final(self)@.icon == old(self)@.icon,
            final(self)@.script == old(self)@.script,
            final(self)@.style == old(self)@.style,
            final(self)@.links == old(self)@.links,
            r matches Err(_) ==> final(self)@.contents == old(self)@.contents,
            r matches Err(_) ==> (final(self)@.title == old(self)@.title || final(self)@.title
                == Some(dir_title_spec(fs@, root@, true))),
            r matches Err(_) ==> (final(self)@.main == old(self)@.main || opt_init_spec(
                fs@,
                root@,
                old(self)@.main,
            ) == Ok::<Option<ContentModel>, ErrorModel>(final(self)@.main)),
            r matches Err(_) ==> (final(self)@.header == old(self)@.header || opt_init_spec(
                fs@,
                root@,
                old(self)@.header,
            ) == Ok::<Option<ContentModel>, ErrorModel>(final(self)@.header)),
            r matches Err(_) ==> (final(self)@.footer == old(self)@.footer || opt_init_spec(
                fs@,
                root@,
                old(self)@.footer,
            ) == Ok::<Option<ContentModel>, ErrorModel>(final(self)@.footer)),
    {
        if self.title.is_none() {
            if !fs.contains_dir(root) {
                return Err(BuildError::Io { path: root.to_owned() });
            }
            self.title = Some(build_title_for_dir(fs, root, true));
        }
        match &mut self.main {
            Some(c) => {
                if let Err(e) = c.init_from_file(fs, root) {
                    return Err(e);
                }
            },
            None => {},
        }
        match &mut self.header {
            Some(c) => {
                if let Err(e) = c.init_from_file(fs, root) {
                    return Err(e);
                }
            },
            None => {},
        }
        match &mut self.footer {
            Some(c) => {
                if let Err(e) = c.init_from_file(fs, root) {
                    return Err(e);
                }
            },
            None => {},
        }
        if !fs.contains_dir(root) {
            return Err(BuildError::Io { path: root.to_owned() });
        }
        let files = fs.list_files(root);
        let n = files.len();
        let ghost listed = files_in(fs@.files, root@);
        let mut normals: Vec<Content> = Vec::new();
        let mut main0: Option<Content> = None;
        let mut footer0: Option<Content> = None;
        let mut header0: Option<Content> = None;
        proof {
            assert(normals.deep_view() =~= scan_spec(listed.take(0)).normals);
        }
        let mut i: usize = 0;
        while i < n
            invariant
                0 <= i <= n,
                n == listed.len(),
                listed == files_in(fs@.files, root@),
                files.deep_view() == listed,
                n == files@.len(),
                normals.deep_view() == scan_spec(listed.take(i as int)).normals,
                main0.deep_view() == scan_spec(listed.take(i as int)).main,
                footer0.deep_view() == scan_spec(listed.take(i as int)).footer,
                header0.deep_view() == scan_spec(listed.take(i as int)).header,
            decreases n - i,
        {
            let ghost pre = normals.deep_view();
            proof {
                assert(listed[i as int] == files@[i as int]@);
                assert(listed.take(i + 1).drop_last() =~= listed.take(i as int));
                assert(listed.take(i + 1).last() == listed[i as int]);
            }
            match init_entry_contents(&files[i], true) {
                Some(p) => {
                    let (c, ct) = p;
                    match ct {
                        ContentType::Normal => {
                            normals.push(c);
                            proof {
                                assert(normals.deep_view() =~= pre.push(
                                    (classify_spec(listed[i as int], true)->0).0,
                                ));
                            }
                        },
                        ContentType::Main => {
                            if main0.is_none() {
                                main0 = Some(c);
                            }
                        },
                        ContentType::Footer => {
                            if footer0.is_none() {
                                footer0 = Some(c);
                            }
                        },
                        ContentType::Header => {
                            if header0.is_none() {
                                header0 = Some(c);
                            }
                        },
                    }
                },
                None => {},
            }
            i = i + 1;
        }
        proof {
            assert(listed.take(n as int) =~= listed);
        }
        let mut res = sort_contents(normals);
        let mut sections = init_dir_sections(fs, root);
        if res.len() > 0 {
            res.push(Content::new_break());
        }
        res.append(&mut sections);
        proof {
            assert(res.deep_view() =~= assembled_contents(fs@, root@));
        }
        if self.main.is_none() {
            self.main = main0;
        }
        if self.footer.is_none() {
            self.footer = footer0;
        }
        if self.header.is_none() {
            self.header = header0;
        }
        if self.contents.is_none() {
            self.contents = Some(res);
        }
        Ok(())
    }

    /// Expands every directory node of the contents and materializes every
    /// node, the main, header and footer included.
    #[verifier::loop_isolation(false)]
    #[verifier::rlimit(60)]
    pub fn build_contents(&mut self, fs: &Snapshot, root: &str) -> (r: Result<(), BuildError>)
        ensures
            build_contents_spec(fs@, root@, old(self)@) matches Ok(dm) ==> (r matches Ok(())
                && final(self)@ == dm),
            build_contents_spec(fs@, root@, old(self)@) matches Err(e) ==> (r matches Err(re)
                && re@ == e),
            final(self)@.full_page == old(self)@.full_page,
            final(self)@.title == old(self)@.title,
            final(self)@.subtitle == old(self)@.subtitle,
            final(self)@.author == old(self)@.author,
            final(self)@.icon == old(self)@.icon,
            final(self)@.script == old(self)@.script,
            final(self)@.style == old(self)@.style,
            final(self)@.links == old(self)@.links,
            r matches Err(_) ==> (final(self)@.contents == old(self)@.contents
                || contents_step_spec(fs@, root@, old(self)@.contents) == Ok::<
                Option<Seq<ContentModel>>,
                ErrorModel,
            >(final(self)@.contents)),
            r matches Err(_) ==> (final(self)@.main == old(self)@.main || opt_fill_spec(
                fs@,
                root@,
                old(self)@.main,
            ) == Ok::<Option<ContentModel>, ErrorModel>(final(self)@.main)),
            r matches Err(_) ==> (final(self)@.header == old(self)@.header || opt_fill_spec(
                fs@,
                root@,
                old(self)@.header,
            ) == Ok::<Option<ContentModel>, ErrorModel>(final(self)@.header)),
            r matches Err(_) ==> (final(self)@.footer == old(self)@.footer || opt_fill_spec(
                fs@,
                root@,
                old(self)@.footer,
            ) == Ok::<Option<ContentModel>, ErrorModel>(final(self)@.footer)),
    {
        if self.contents.is_some() {
            let cs: Vec<Content> = match &self.contents {
                Some(v) => clone_contents(v),
                None => Vec::new(),
            };
            let ghost csm = old(self)@.contents->0;
            let n = cs.len();
            let mut hd = false;
            let mut i: usize = 0;
            while i < n
                invariant
                    0 <= i <= n,
                    n == csm.len(),
                    cs.deep_view() == csm,
                    n == cs@.len(),
                    hd == has_dir_node(csm.take(i as int)),
                decreases n - i,
            {
                proof {
                    assert(csm.take(i + 1).drop_last() =~= csm.take(i as int));
                    assert(csm.take(i + 1)[i as int] == csm[i as int]);
                    assert(forall|j: int|
                        0 <= j < i ==> csm.take(i + 1)[j] == csm.take(i as int)[j]);
                }
                if cs[i].dir.is_some() {
                    hd = true;
                    proof {
                        assert(has_dir_node(csm.take(i + 1)));
                    }
                } else {
                    proof {
                        if has_dir_node(csm.take(i + 1)) {
                            let w = choose|k: int|
                                0 <= k < i + 1 && (#[trigger] csm.take(i + 1)[k]).dir is Some;
                            if w < i {
                                assert(csm.take(i as int)[w].dir is Some);
                            }
                        }
                        if has_dir_node(csm.take(i as int)) {
                            let w = choose|k: int|
                                0 <= k < i && (#[trigger] csm.take(i as int)[k]).dir is Some;
                            assert(csm.take(i + 1)[w].dir is Some);
                        }
                    }
                }
                i = i + 1;
            }
            proof {
                assert(csm.take(n as int) =~= csm);
            }
            let expanded: Vec<Content> = if hd {
                let mut out: Vec<Content> = Vec::new();
                let mut i: usize = 0;
                proof {
                    assert(csm.skip(0) =~= csm);
                    assert(Seq::<ContentModel>::empty() + expand_all_spec(fs@, root@, csm)->Ok_0
                        =~= expand_all_spec(fs@, root@, csm)->Ok_0);
                }
                while i < n
                    invariant
                        0 <= i <= n,
                        n == csm.len(),
                        cs.deep_view() == csm,
                        n == cs@.len(),
                        expand_all_spec(fs@, root@, csm) matches Ok(t0) ==> (expand_all_spec(
                            fs@,
                            root@,
                            csm.skip(i as int),
                        ) matches Ok(t) && t0 == out.deep_view() + t),
                        expand_all_spec(fs@, root@, csm) matches Err(e0) ==> (expand_all_spec(
                            fs@,
                            root@,
                            csm.skip(i as int),
                        ) matches Err(e) && e == e0),
                    decreases n - i,
                {
                    let ghost pre = out.deep_view();
                    proof {
                        assert(csm.skip(i as int)[0] == csm[i as int]);
                        assert(csm.skip(i as int).drop_first() =~= csm.skip(i + 1));
                    }
                    if cs[i].dir.is_some() {
                        let p = match &cs[i].dir {
                            Some(p) => p.clone(),
                            None => String::new(),
                        };
                        let rp = match crate::content::resolve_path(fs, root, p.as_str()) {
                            Ok(q) => q,
                            Err(e) => {
                                return Err(e);
                            },
                        };
                        if !fs.contains_dir(rp.as_str()) {
                            return Err(BuildError::InvalidConfig { path: rp });
                        }
                        let mut entries = dir_file_entries(fs, rp.as_str());
                        out.append(&mut entries);
                        let mut secs = init_dir_sections(fs, rp.as_str());
                        out.append(&mut secs);
                        proof {
                            assert(out.deep_view() =~= pre + (sort_by_file(
                                normal_entries(files_in(fs@.files, rp@)),
                            ) + dir_sections_spec(fs@, rp@)));
                        }
                    } else {
                        out.push(cs[i].duplicate());
                        proof {
                            assert(out.deep_view() =~= pre + seq![csm[i as int]]);
                        }
                    }
                    proof {
                        if expand_all_spec(fs@, root@, csm) matches Ok(t0) {
                            let t = expand_all_spec(fs@, root@, csm.skip(i as int))->Ok_0;
                            let h = expand_one_spec(fs@, root@, csm[i as int])->Ok_0;
                            let t2 = expand_all_spec(fs@, root@, csm.skip(i + 1))->Ok_0;
                            assert(t == h + t2);
                            assert(pre + t =~= (pre + h) + t2);
                        }
                    }
                    i = i + 1;
                }
                proof {
                    assert(csm.skip(n as int) =~= Seq::<ContentModel>::empty());
                    assert(expand_all_spec(fs@, root@, csm) matches Ok(t0) ==> t0 == out.deep_view()
                        + Seq::<ContentModel>::empty());
                    assert(expand_all_spec(fs@, root@, csm) matches Ok(t0) ==> out.deep_view()
                        + Seq::<ContentModel>::empty() =~= out.deep_view());
                }
                out
            } else {
                cs
            };
            let ghost cs1 = expanded.deep_view();
            let m = expanded.len();
            let mut filled: Vec<Content> = Vec::new();
            proof {
                assert(cs1.skip(0) =~= cs1);
                assert(Seq::<ContentModel>::empty() + fill_all_spec(fs@, root@, cs1)->Ok_0
                    =~= fill_all_spec(fs@, root@, cs1)->Ok_0);
            }
            let mut i: usize = 0;
            while i < m
                invariant
                    0 <= i <= m,
                    m == cs1.len(),
                    expanded.deep_view() == cs1,
                    m == expanded@.len(),
                    fill_all_spec(fs@, root@, cs1) matches Ok(t0) ==> (fill_all_spec(
                        fs@,
                        root@,
                        cs1.skip(i as int),
                    ) matches Ok(t) && t0 == filled.deep_view() + t),
                    fill_all_spec(fs@, root@, cs1) matches Err(e0) ==> (fill_all_spec(
                        fs@,
                        root@,
                        cs1.skip(i as int),
                    ) matches Err(e) && e == e0),
                decreases m - i,
            {
                let ghost pre = filled.deep_view();
                proof {
                    assert(cs1.skip(i as int)[0] == cs1[i as int]);
                    assert(cs1.skip(i as int).drop_first() =~= cs1.skip(i + 1));
                }
                let mut c = expanded[i].duplicate();
                if let Err(e) = fill_content(&mut c, fs, root) {
                    return Err(e);
                }
                filled.push(c);
                proof {
                    assert(filled.deep_view() =~= pre + seq![
                        fill_spec(fs@, root@, cs1[i as int])->Ok_0,
                    ]);
                    if fill_all_spec(fs@, root@, cs1) matches Ok(t0) {
                        let t = fill_all_spec(fs@, root@, cs1.skip(i as int))->Ok_0;
                        let h = fill_spec(fs@, root@, cs1[i as int])->Ok_0;
                        let t2 = fill_all_spec(fs@, root@, cs1.skip(i + 1))->Ok_0;
                        assert(t == seq![h] + t2);
                        assert(pre + t =~= (pre + seq![h]) + t2);
                    }
                }
                i = i + 1;
            }
            proof {
                assert(cs1.skip(m as int) =~= Seq::<ContentModel>::empty());
                assert(fill_all_spec(fs@, root@, cs1) matches Ok(t0) ==> t0 == filled.deep_view()
                    + Seq::<ContentModel>::empty());
                assert(fill_all_spec(fs@, root@, cs1) matches Ok(t0) ==> filled.deep_view()
                    + Seq::<ContentModel>::empty() =~= filled.deep_view());
            }
            self.contents = Some(filled);
        }
        match &mut self.main {
            Some(c) => {
                if let Err(e) = fill_content(c, fs, root) {
                    return Err(e);
                }
            },
            None => {},
        }
        match &mut self.header {
            Some(c) => {
                if let Err(e) = fill_content(c, fs, root) {
                    return Err(e);
                }
            },
            None => {},
        }
        match &mut self.footer {
            Some(c) => {
                if let Err(e) = fill_content(c, fs, root) {
                    return Err(e);
                }
            },
            None => {},
        }
        Ok(())
    }

    /// Runs the whole build: the merge with the computed tree, then the
    /// expansion and materialization of every node.
    pub fn build(&mut self, fs: &Snapshot, root: &str) -> (r: Result<(), BuildError>)
        ensures
            build_spec(fs@, root@, old(self)@) matches Ok(dm) ==> (r matches Ok(()) && final(self)@
                == dm),
            build_spec(fs@, root@, old(self)@) matches Err(e) ==> (r matches Err(re) && re@ == e),
            final(self)@.full_page == old(self)@.full_page,
            final(self)@.subtitle == old(self)@.subtitle,
            final(self)@.author == old(self)@.author,
            final(self)@.icon == old(self)@.icon,
            final(self)@.script == old(self)@.script,
            final(self)@.style == old(self)@.style,
            final(self)@.links == old(self)@.links,
            r matches Err(_) ==> (final(self)@.title == old(self)@.title || final(self)@.title
                == Some(dir_title_spec(fs@, root@, true))),
    {
        if let Err(e) = self.init(fs, root) {
            return Err(e);
        }
        self.build_contents(fs, root)
    }
}

/// Override precedence: a field the override sets is never replaced by a
/// computed default — a set main, header or footer node is kept, with only
/// its missing label resolved — and an unset field is always filled with
/// the computed value.
pub proof fn lemma_override_precedence(m: SnapModel, root: Seq<char>, d: DataModel, d2: DataModel)
    requires
        init_spec(m, root, d) == Ok::<DataModel, ErrorModel>(d2),
    ensures
        d.title is Some ==> d2.title == d.title,
        d.title is None ==> d2.title == Some(dir_title_spec(m, root, true)),
        d.contents is Some ==> d2.contents == d.contents,
        d.contents is None ==> d2.contents == Some(assembled_contents(m, root)),
        d.main is Some ==> d2.main is Some && opt_init_spec(m, root, d.main) == Ok::<
            Option<ContentModel>,
            ErrorModel,
        >(d2.main),
        d.main is None ==> d2.main == scan_spec(files_in(m.files, root)).main,
        d.header is Some ==> d2.header is Some && opt_init_spec(m, root, d.header) == Ok::<
            Option<ContentModel>,
            ErrorModel,
        >(d2.header),
        d.header is None ==> d2.header == scan_spec(files_in(m.files, root)).header,
        d.footer is Some ==> d2.footer is Some && opt_init_spec(m, root, d.footer) == Ok::<
            Option<ContentModel>,
            ErrorModel,
        >(d2.footer),
        d.footer is None ==> d2.footer == scan_spec(files_in(m.files, root)).footer,
        d2.full_page == d.full_page,
        d2.subtitle == d.subtitle,
        d2.author == d.author,
        d2.icon == d.icon,
        d2.script == d.script,
        d2.style == d.style,
        d2.links == d.links,
{
}

/// Ordering invariant: a tree computed with no override contents holds the
/// root-level file entries first, sorted by path, a separator after them
/// when there are any, and then the subdirectory groups.
pub proof fn lemma_assembled_ordering(m: SnapModel, root: Seq<char>, d: DataModel, d2: DataModel)
    requires
        init_spec(m, root, d) == Ok::<DataModel, ErrorModel>(d2),
        d.contents is None,
    ensures
        d2.contents == Some(assembled_contents(m, root)),
        root_entries_spec(m, root).len() > 0 ==> assembled_contents(m, root) == root_entries_spec(
            m,
            root,
        ) + seq![break_model()] + dir_sections_spec(m, root),
        root_entries_spec(m, root).len() == 0 ==> assembled_contents(m, root) == dir_sections_spec(
            m,
            root,
        ),
        sorted_by_file(root_entries_spec(m, root)),
{
    lemma_sort_by_file_sorted(scan_spec(files_in(m.files, root)).normals);
    if root_entries_spec(m, root).len() == 0 {
        assert(root_entries_spec(m, root) + dir_sections_spec(m, root) =~= dir_sections_spec(
            m,
            root,
        ));
    }
}

proof fn lemma_scan_normals_no_dir(files: Seq<FileModel>)
    ensures
        forall|i: int|
            0 <= i < scan_spec(files).normals.len() ==> (#[trigger] scan_spec(
                files,
            ).normals[i]).dir is None,
    decreases files.len(),
{
    if files.len() > 0 {
        lemma_scan_normals_no_dir(files.drop_last());
    }
}

proof fn lemma_expanded_no_dir(m: SnapModel, root: Seq<char>, cs: Seq<ContentModel>)
    requires
        expand_all_spec(m, root, cs) is Ok,
    ensures
        forall|i: int|
            0 <= i < (expand_all_spec(m, root, cs)->Ok_0).len() ==> (#[trigger] (expand_all_spec(
                m,
                root,
                cs,
            )->Ok_0)[i]).dir is None,
    decreases cs.len(),
{
    if cs.len() > 0 {
        lemma_expanded_no_dir(m, root, cs.drop_first());
        let h = expand_one_spec(m, root, cs[0])->Ok_0;
        let t = expand_all_spec(m, root, cs.drop_first())->Ok_0;
        assert(forall|i: int| 0 <= i < h.len() ==> (#[trigger] h[i]).dir is None) by {
            match cs[0].dir {
                None => {},
                Some(p) => {
                    let rp = resolve_spec(m, root, p)->Ok_0;
                    let entries = sort_by_file(normal_entries(files_in(m.files, rp)));
                    crate::tree::lemma_normal_entries_no_dir(files_in(m.files, rp));
                    crate::tree::lemma_sort_by_file_no_dir(normal_entries(files_in(m.files, rp)));
                    crate::tree::lemma_dir_sections_no_dir(m, rp);
                    assert forall|i: int| 0 <= i < h.len() implies (#[trigger] h[i]).dir
                        is None by {
                        if i < entries.len() {
                            assert(h[i] == entries[i]);
                        } else {
                            assert(h[i] == dir_sections_spec(m, rp)[i - entries.len()]);
                        }
                    }
                },
            }
        }
        assert forall|i: int|
            0 <= i < (expand_all_spec(m, root, cs)->Ok_0).len() implies (#[trigger] (
        expand_all_spec(m, root, cs)->Ok_0)[i]).dir is None by {
            if i < h.len() {
                assert((h + t)[i] == h[i]);
            } else {
                assert((h + t)[i] == t[i - h.len()]);
            }
        }
    }
}

proof fn lemma_fill_all_no_dir(m: SnapModel, root: Seq<char>, cs: Seq<ContentModel>)
    requires
        fill_all_spec(m, root, cs) is Ok,
        forall|i: int| 0 <= i < cs.len() ==> (#[trigger] cs[i]).dir is None,
    ensures
        forall|i: int|
            0 <= i < (fill_all_spec(m, root, cs)->Ok_0).len() ==> (#[trigger] (fill_all_spec(
                m,
                root,
                cs,
            )->Ok_0)[i]).dir is None,
    decreases cs.len(),
{
    if cs.len() > 0 {
        assert(forall|i: int|
            0 <= i < cs.drop_first().len() ==> (#[trigger] cs.drop_first()[i]).dir is None);
        lemma_fill_all_no_dir(m, root, cs.drop_first());
        crate::content::lemma_fill_preserves_dir(m, root, cs[0]);
        let h = fill_spec(m, root, cs[0])->Ok_0;
        let t = fill_all_spec(m, root, cs.drop_first())->Ok_0;
        assert forall|i: int|
            0 <= i < (fill_all_spec(m, root, cs)->Ok_0).len() implies (#[trigger] (fill_all_spec(
                m,
                root,
                cs,
            )->Ok_0)[i]).dir is None by {
            if i == 0 {
                assert((seq![h] + t)[0] == h);
            } else {
                assert((seq![h] + t)[i] == t[i - 1]);
            }
        }
    }
}

/// Directory-node expansion is exhaustive: a build that succeeds leaves a
/// contents sequence, and no node of it carries a directory reference.
pub proof fn lemma_expansion_exhaustive(m: SnapModel, root: Seq<char>, d: DataModel, d2: DataModel)
    requires
        build_spec(m, root, d) == Ok::<DataModel, ErrorModel>(d2),
    ensures
        d2.contents is Some,
        forall|i: int|
            0 <= i < (d2.contents->0).len() ==> (#[trigger] (d2.contents->0)[i]).dir is None,
{
    let d1 = init_spec(m, root, d)->Ok_0;
    let cs = d1.contents->0;
    if d.contents is None {
        crate::tree::lemma_dir_sections_no_dir(m, root);
        lemma_scan_normals_no_dir(files_in(m.files, root));
        crate::tree::lemma_sort_by_file_no_dir(scan_spec(files_in(m.files, root)).normals);
        assert forall|i: int| 0 <= i < cs.len() implies (#[trigger] cs[i]).dir is None by {
            let sorted = root_entries_spec(m, root);
            if sorted.len() > 0 {
                if i < sorted.len() {
                    assert(cs[i] == sorted[i]);
                } else if i == sorted.len() {
                    assert(cs[i] == break_model());
                } else {
                    assert(cs[i] == dir_sections_spec(m, root)[i - sorted.len() - 1]);
                }
            } else {
                assert(cs[i] == dir_sections_spec(m, root)[i]);
            }
        }
    }
    let cs1 = if has_dir_node(cs) {
        expand_all_spec(m, root, cs)->Ok_0
    } else {
        cs
    };
    if has_dir_node(cs) {
        lemma_expanded_no_dir(m, root, cs);
    } else {
        assert(forall|i: int| 0 <= i < cs.len() ==> (#[trigger] cs[i]).dir is None);
    }
    lemma_fill_all_no_dir(m, root, cs1);
}

/// Error propagation: an override main entry that references, through its
/// file path, a markdown file the snapshot does not hold aborts the whole
/// build with an Io error naming the resolved path; no tree is produced.
pub proof fn lemma_missing_reference_aborts(
    m: SnapModel,
    root: Seq<char>,
    d: DataModel,
    p: Seq<char>,
)
    requires
        m.is_dir(root),
        d.main matches Some(c) && c.file == Some(p) && c.label is None,
        resolve_spec(m, root, p) matches Ok(rp) && is_md(rp) && m.file_content(rp) is None,
    ensures
        build_spec(m, root, d) == Err::<DataModel, ErrorModel>(
            ErrorModel::Io { path: resolve_spec(m, root, p)->Ok_0 },
        ),
{
}

/// The name of the JSON override document.
pub open spec fn json_config_name() -> Seq<char> {
    seq!['m', 'd', 'p', 'a', 'g', 'e', '.', 'j', 's', 'o', 'n']
}

/// The name of the TOML override document.
pub open spec fn toml_config_name() -> Seq<char> {
    seq!['m', 'd', 'p', 'a', 'g', 'e', '.', 't', 'o', 'm', 'l']
}

/// The override document a root directory carries: its JSON config when
/// present, else its TOML config when present, else none.
pub open spec fn config_file_spec(m: SnapModel, root: Seq<char>) -> Option<Seq<char>> {
    if m.exists_path(join(root, json_config_name())) {
        Some(join(root, json_config_name()))
    } else if m.exists_path(join(root, toml_config_name())) {
        Some(join(root, toml_config_name()))
    } else {
        None
    }
}

fn exists_in(fs: &Snapshot, p: &str) -> (r: bool)
    ensures
        r == fs@.exists_path(p@),
{
    match fs.find_file(p) {
        Some(_) => true,
        None => fs.contains_dir(p),
    }
}

/// Picks the override document of the root directory, if one is present.
pub fn config_file(fs: &Snapshot, root: &str) -> (r: Option<String>)
    ensures
        r.deep_view() == config_file_spec(fs@, root@),
{
    proof {
        reveal_strlit("mdpage.json");
        reveal_strlit("mdpage.toml");
        assert("mdpage.json"@ =~= json_config_name());
        assert("mdpage.toml"@ =~= toml_config_name());
    }
    let j = join_str(root, "mdpage.json");
    if exists_in(fs, j.as_str()) {
        return Some(j);
    }
    let t = join_str(root, "mdpage.toml");
    if exists_in(fs, t.as_str()) {
        return Some(t);
    }
    None
}

} // verus!
