//! Translating the paths of a queue to URLs under its root, and back.

use vstd::prelude::*;
use vstd::string::*;
use crate::mlflow::conditions::after_prefix;
use crate::queue::path::{
    begins_with, climbs, components, drop_dots, has_parent, is_absolute, lemma_components_of_both,
    lemma_joined_components, lemma_pieces_of_both, path_text, piece_components, same_components,
    split_path, starts_at, without_dots,
};
use crate::text::chars::{chars_of, copied, opt_text, same_text, text_of_range, texts};
use crate::text::collect::{all_ok, lemma_all_ok_error, lemma_all_ok_step};
use crate::text::search::{
    ends_with, find_char, find_part, has_part_at, lemma_find_char, position_of_part, starts_with,
};
use crate::text::split::{join_texts, pieces};
use crate::text::trim::trim_start_char;

verus! {

/// An error of the queue's file system.
#[derive(Debug)]
pub enum QueueError {
    Persistence(String),
    NotFound(String),
}

pub enum QueueFault {
    Persistence(Seq<char>),
    NotFound(Seq<char>),
}

impl View for QueueError {
    type V = QueueFault;

    open spec fn view(&self) -> QueueFault {
        match self {
            QueueError::Persistence(m) => QueueFault::Persistence(m@),
            QueueError::NotFound(m) => QueueFault::NotFound(m@),
        }
    }
}

impl QueueError {
    /// The message of the error.
    pub fn message(&self) -> (r: &String)
        ensures
            match self@ {
                QueueFault::Persistence(m) => r@ == m,
                QueueFault::NotFound(m) => r@ == m,
            },
    {
        match self {
            QueueError::Persistence(m) => m,
            QueueError::NotFound(m) => m,
        }
    }
}

/// The outcome of a translation, over views.
pub open spec fn translated<T: View>(r: Result<T, QueueError>) -> Result<T::V, QueueFault> {
    match r {
        Ok(t) => Ok(t@),
        Err(e) => Err(e@),
    }
}

/// How a text is shown for debugging: in quotes, with escapes.
pub uninterp spec fn debug_text(text: Seq<char>) -> Seq<char>;

/// How a path is shown for debugging: in quotes, with escapes.
pub uninterp spec fn debug_path(path: Seq<char>) -> Seq<char>;

/// `Debug` of `str`, through `format!`: a function of the text.
#[verifier::external_body]
fn text_for_debug(text: &str) -> (r: String)
    ensures
        r@ == debug_text(text@),
{
    format!("{text:?}")
}

/// `Debug` of `std::path::Path`, through `format!`: a function of the path's
/// text.
#[verifier::external_body]
fn path_for_debug(path: &str) -> (r: String)
    ensures
        r@ == debug_path(path@),
{
    format!("{:?}", std::path::Path::new(path))
}

/// The root of a queue: its URL without a slash at the end, and its path where it
/// is local.
#[derive(Debug)]
pub struct QueueRoot {
    pub root_url: String,
    pub local_root: Option<String>,
}

pub struct RootModel {
    pub root_url: Seq<char>,
    pub local_root: Option<Seq<char>>,
}

impl View for QueueRoot {
    type V = RootModel;

    open spec fn view(&self) -> RootModel {
        RootModel { root_url: self.root_url@, local_root: opt_text(self.local_root) }
    }
}

/// The URL without slashes at its end; the root of the file system keeps its
/// third.
pub open spec fn without_slashes(url: Seq<char>) -> Seq<char>
    decreases url.len(),
{
    if ends_with(url, "/"@) && !ends_with(url, ":///"@) && url.len() > 0 {
        without_slashes(url.drop_last())
    } else {
        url
    }
}

/// The error for a path that climbs.
pub open spec fn climbing_fault(context: Seq<char>, path: Seq<char>) -> QueueFault {
    QueueFault::Persistence(context + " contains parent traversal: "@ + debug_path(path))
}

/// The root that a URL or an absolute path gives. A bare relative path is none:
/// what it is relative to depends on the backend.
pub open spec fn root_of(given: Seq<char>) -> Result<RootModel, QueueFault> {
    if given.len() == 0 {
        Err(QueueFault::Persistence("queue filesystem root cannot be empty"@))
    } else if find_part(given, "://"@, 0) is None && !is_absolute(given) {
        Err(
            QueueFault::Persistence(
                "bare relative queue root "@ + debug_text(given)
                    + " is backend-dependent; locate existing history using the original backend root_dir and working directory, then perform explicit offline migration before selecting an absolute root or file:// URL; merely adding a scheme is not a migration"@,
            ),
        )
    } else {
        let url = if find_part(given, "://"@, 0) is None {
            "file://"@ + given
        } else {
            given
        };
        let root_url = without_slashes(url);
        if !starts_with(root_url, "file://"@) {
            Ok(RootModel { root_url, local_root: None })
        } else {
            let path = root_url.skip(7);
            if climbs(components(path)) {
                Err(climbing_fault("queue filesystem root"@, path))
            } else if path.len() == 0 {
                Err(QueueFault::Persistence("queue filesystem root cannot be empty"@))
            } else {
                Ok(RootModel { root_url, local_root: Some(path) })
            }
        }
    }
}

/// The path under the root that a path stands for, and whether it was given with
/// the root before it.
pub open spec fn relative_of(root: RootModel, path: Seq<char>) -> Result<
    (Seq<Seq<char>>, bool),
    QueueFault,
> {
    let c = components(path);
    if climbs(c) {
        Err(climbing_fault("queue filesystem path"@, path))
    } else if root.local_root is Some && begins_with(c, components(root.local_root->0)) {
        Ok((without_dots(c.skip(components(root.local_root->0).len() as int)), true))
    } else if is_absolute(path) {
        Err(
            QueueFault::Persistence(
                "absolute queue filesystem path is outside configured root "@ + root.root_url
                    + ": "@ + debug_path(path),
            ),
        )
    } else {
        Ok((without_dots(c), false))
    }
}

/// What stands before a path under the root.
pub open spec fn child_prefix(root_url: Seq<char>) -> Seq<char> {
    if ends_with(root_url, "/"@) {
        root_url
    } else {
        root_url + "/"@
    }
}

/// The URL of a path.
pub open spec fn url_of(root: RootModel, path: Seq<char>) -> Result<Seq<char>, QueueFault> {
    match relative_of(root, path) {
        Err(e) => Err(e),
        Ok((c, _)) => if path_text(c).len() == 0 {
            Ok(root.root_url)
        } else {
            Ok(child_prefix(root.root_url) + path_text(c))
        },
    }
}

/// The URL at which a directory given with its root was once kept, with the root
/// twice in it; `None` where that is where it is kept now.
pub open spec fn legacy_url_of(root: RootModel, path: Seq<char>) -> Result<
    Option<Seq<char>>,
    QueueFault,
> {
    if root.local_root is None {
        Ok(None)
    } else {
        match relative_of(root, path) {
            Err(e) => Err(e),
            Ok((c, qualified)) => {
                let suffix = trim_start_char(path, '/');
                if !qualified || without_dots(components(suffix)) == c {
                    Ok(None)
                } else {
                    Ok(Some(child_prefix(root.root_url) + suffix))
                }
            },
        }
    }
}

/// The error for a listed entry that is not under the root.
pub open spec fn outside_fault(root: RootModel, entry: Seq<char>) -> QueueFault {
    QueueFault::Persistence(
        "queue filesystem LIST returned entry outside configured root "@ + root.root_url + ": "@
            + entry,
    )
}

/// The components of a listed entry under the root, with the text of the path
/// that they are from.
pub open spec fn listed_components(root: RootModel, entry: Seq<char>) -> Result<
    (Seq<Seq<char>>, Seq<char>),
    QueueFault,
> {
    if root.local_root is Some {
        if !starts_with(entry, "file://"@) {
            Err(outside_fault(root, entry))
        } else {
            let path = entry.skip(7);
            let c = without_dots(components(path));
            let r = without_dots(components(root.local_root->0));
            if climbs(components(path)) {
                Err(climbing_fault("queue filesystem LIST entry"@, path))
            } else if !begins_with(c, r) {
                Err(outside_fault(root, entry))
            } else {
                let rest = c.skip(r.len() as int);
                Ok((rest, path_text(rest)))
            }
        }
    } else if entry == root.root_url {
        Ok((Seq::empty(), Seq::empty()))
    } else if starts_with(entry, child_prefix(root.root_url)) {
        let rest = entry.skip(child_prefix(root.root_url).len() as int);
        Ok((components(rest), rest))
    } else {
        Err(outside_fault(root, entry))
    }
}

/// The components of a listed entry under the root, where it is a path there.
pub open spec fn relative_entry(root: RootModel, entry: Seq<char>) -> Result<
    Seq<Seq<char>>,
    QueueFault,
> {
    match listed_components(root, entry) {
        Err(e) => Err(e),
        Ok((c, text)) => if c.len() > 0 && c[0] == "/"@ {
            Err(
                QueueFault::Persistence(
                    "queue filesystem LIST returned absolute child suffix: "@ + entry,
                ),
            )
        } else if climbs(c) {
            Err(climbing_fault("queue filesystem LIST entry"@, text))
        } else {
            Ok(c)
        },
    }
}

/// A directory with a name under it.
pub open spec fn path_under(dir: Seq<char>, name: Seq<char>) -> Seq<char> {
    if dir.len() == 0 {
        name
    } else if dir.last() == '/' {
        dir + name
    } else {
        dir + "/"@ + name
    }
}

/// The path of a listed entry, under the directory as it was asked for.
pub open spec fn listed_of(root: RootModel, dir: Seq<char>, entry: Seq<char>) -> Result<
    Seq<char>,
    QueueFault,
> {
    match relative_of(root, dir) {
        Err(e) => Err(e),
        Ok((d, _)) => match relative_entry(root, entry) {
            Err(e) => Err(e),
            Ok(c) => if c.len() == 0 || c.drop_last() != d {
                Err(
                    QueueFault::Persistence(
                        "queue filesystem LIST returned non-child entry for "@ + debug_path(dir)
                            + ": "@ + entry,
                    ),
                )
            } else if c.last() == "."@ {
                Err(
                    QueueFault::Persistence(
                        "queue filesystem LIST returned entry without a child name: "@ + entry,
                    ),
                )
            } else {
                Ok(path_under(dir, c.last()))
            },
        },
    }
}

/// The file system of a queue, over a factory of file systems.
pub struct FactoryQueueFs<T> {
    factory: T,
    root: QueueRoot,
}

/// What a listing of the directory at a former URL gave.
#[derive(Debug)]
pub enum LegacyListing {
    Empty,
    Entries,
    NotFound,
    Failed(String),
}

/// What went wrong at a file system: the file is missing, or something else.
#[derive(Debug)]
pub enum FilesystemFailure {
    NotFound(String),
    Other(String),
}

fn reject_parents(c: &Vec<String>, path: &str, context: &str) -> (r: Result<(), QueueError>)
    ensures
        match r {
            Ok(()) => !climbs(texts(c@)),
            Err(e) => climbs(texts(c@)) && e@ == climbing_fault(context@, path@),
        },
{
    if has_parent(c) {
        let shown: String = path_for_debug(path);
        let mut m: String = context.to_owned();
        m.append(" contains parent traversal: ");
        m.append(shown.as_str());
        return Err(QueueError::Persistence(m));
    }
    Ok(())
}

fn chars_end_with(s: &Vec<char>, n: usize, suffix: &str) -> (r: bool)
    requires
        n <= s@.len(),
    ensures
        r == ends_with(s@.take(n as int), suffix@),
{
    let p: Vec<char> = chars_of(suffix);
    if p.len() > n {
        return false;
    }
    let head: String = text_of_range(s.as_slice(), 0, n);
    let h: Vec<char> = chars_of(head.as_str());
    assert(h@ =~= s@.take(n as int));
    has_part_at(h.as_slice(), n - p.len(), p.as_slice())
}

fn strip_slashes(url: &str) -> (r: String)
    ensures
        r@ == without_slashes(url@),
{
    let s: Vec<char> = chars_of(url);
    let mut n: usize = s.len();
    assert(s@.take(n as int) =~= s@);
    while n > 0 && chars_end_with(&s, n, "/") && !chars_end_with(&s, n, ":///")
        invariant
            n <= s@.len(),
            s@ == url@,
            without_slashes(url@) == without_slashes(s@.take(n as int)),
        decreases n,
    {
        assert(s@.take(n as int).drop_last() =~= s@.take(n - 1));
        n -= 1;
    }
    let r: String = text_of_range(s.as_slice(), 0, n);
    assert(r@ =~= s@.take(n as int));
    r
}

impl<T> FactoryQueueFs<T> {
    /// The factory.
    pub closed spec fn maker(&self) -> T {
        self.factory
    }

    /// The root.
    pub closed spec fn anchor(&self) -> RootModel {
        self.root@
    }

    /// Whether a backend can hold a queue: it appends durably, and replaces files
    /// conditionally.
    pub fn require_root_capabilities(
        root_url: &str,
        filesystem_type: &str,
        supports_append: bool,
        supports_conditional_replace: bool,
    ) -> (r: Result<(), QueueError>)
        ensures
            translated(r) == if !supports_append {
                Err(
                    QueueFault::Persistence(
                        "queue root "@ + root_url@ + " uses backend "@ + filesystem_type@
                            + " without durable append support"@,
                    ),
                )
            } else if !supports_conditional_replace {
                Err(
                    QueueFault::Persistence(
                        "queue root "@ + root_url@ + " uses backend "@ + filesystem_type@
                            + " without conditional ownership publication support"@,
                    ),
                )
            } else {
                Ok(())
            },
    {
        if supports_append && supports_conditional_replace {
            return Ok(());
        }
        let mut m: String = "queue root ".to_owned();
        m.append(root_url);
        m.append(" uses backend ");
        m.append(filesystem_type);
        if !supports_append {
            m.append(" without durable append support");
        } else {
            m.append(" without conditional ownership publication support");
        }
        Err(QueueError::Persistence(m))
    }

    /// The root that a URL or an absolute path gives.
    pub fn normalize_root(root_url: String) -> (r: Result<QueueRoot, QueueError>)
        ensures
            translated(r) == root_of(root_url@),
    {
        let s: Vec<char> = chars_of(root_url.as_str());
        if s.len() == 0 {
            return Err(
                QueueError::Persistence("queue filesystem root cannot be empty".to_owned()),
            );
        }
        let scheme: Vec<char> = chars_of("://");
        let bare: bool = position_of_part(s.as_slice(), scheme.as_slice(), 0).is_none();
        if bare && s[0] != '/' {
            let shown: String = text_for_debug(root_url.as_str());
            let mut m: String = "bare relative queue root ".to_owned();
            m.append(shown.as_str());
            m.append(
                " is backend-dependent; locate existing history using the original backend root_dir and working directory, then perform explicit offline migration before selecting an absolute root or file:// URL; merely adding a scheme is not a migration",
            );
            return Err(QueueError::Persistence(m));
        }
        let url: String = if bare {
            let mut u: String = "file://".to_owned();
            u.append(root_url.as_str());
            u
        } else {
            root_url
        };
        let root_url: String = strip_slashes(url.as_str());
        proof {
            reveal_strlit("file://");
        }
        match after_prefix(root_url.as_str(), "file://") {
            None => Ok(QueueRoot { root_url, local_root: None }),
            Some(path) => {
                let c: Vec<String> = split_path(path.as_str());
                match reject_parents(&c, path.as_str(), "queue filesystem root") {
                    Err(e) => {
                        return Err(e);
                    },
                    Ok(()) => {},
                }
                if path.as_str().unicode_len() == 0 {
                    return Err(
                        QueueError::Persistence(
                            "queue filesystem root cannot be empty".to_owned(),
                        ),
                    );
                }
                Ok(QueueRoot { root_url, local_root: Some(path) })
            },
        }
    }

    /// The file system at a root, whose backend can do these things.
    pub fn build(
        factory: T,
        root: QueueRoot,
        filesystem_type: &str,
        supports_append: bool,
        supports_conditional_replace: bool,
    ) -> (r: Result<Self, QueueError>)
        ensures
            match r {
                Ok(fs) => supports_append && supports_conditional_replace && fs.maker() == factory
                    && fs.anchor() == root@,
                Err(e) => !(supports_append && supports_conditional_replace) && e@
                    == QueueFault::Persistence(
                    "queue root "@ + root.root_url@ + " uses backend "@ + filesystem_type@
                        + if !supports_append {
                        " without durable append support"@
                    } else {
                        " without conditional ownership publication support"@
                    },
                ),
            },
    {
        match Self::require_root_capabilities(
            root.root_url.as_str(),
            filesystem_type,
            supports_append,
            supports_conditional_replace,
        ) {
            Err(e) => Err(e),
            Ok(()) => Ok(FactoryQueueFs { factory, root }),
        }
    }

    /// The factory.
    pub fn factory(&self) -> (r: &T)
        ensures
            *r == self.maker(),
    {
        &self.factory
    }

    /// The path of a local root.
    pub fn local_root(&self) -> (r: Option<&String>)
        ensures
            (match r {
                Some(p) => Some(p@),
                None => None::<Seq<char>>,
            }) == self.anchor().local_root,
    {
        self.root.local_root.as_ref()
    }

    /// The components under the root that a path stands for, and whether it was
    /// given with the root before it.
    pub fn relative_path(&self, path: &str) -> (r: Result<(Vec<String>, bool), QueueError>)
        ensures
            (match r {
                Ok((c, qualified)) => Ok((texts(c@), qualified)),
                Err(e) => Err(e@),
            }) == relative_of(self.anchor(), path@),
    {
        let c: Vec<String> = split_path(path);
        match reject_parents(&c, path, "queue filesystem path") {
            Err(e) => {
                return Err(e);
            },
            Ok(()) => {},
        }
        if let Some(root) = &self.root.local_root {
            let root: Vec<String> = split_path(root.as_str());
            if starts_at(&c, &root) {
                return Ok((drop_dots(&c, root.len()), true));
            }
        }
        let s: Vec<char> = chars_of(path);
        if s.len() > 0 && s[0] == '/' {
            let shown: String = path_for_debug(path);
            let mut m: String =
                "absolute queue filesystem path is outside configured root ".to_owned();
            m.append(self.root.root_url.as_str());
            m.append(": ");
            m.append(shown.as_str());
            return Err(QueueError::Persistence(m));
        }
        assert(texts(c@).skip(0) =~= texts(c@));
        Ok((drop_dots(&c, 0), false))
    }

    /// What stands before a path under the root.
    pub fn root_child_prefix(&self) -> (r: String)
        ensures
            r@ == child_prefix(self.anchor().root_url),
    {
        let s: Vec<char> = chars_of(self.root.root_url.as_str());
        assert(s@.take(s@.len() as int) =~= s@);
        let mut r: String = copied(&self.root.root_url);
        if !chars_end_with(&s, s.len(), "/") {
            r.append("/");
        }
        r
    }

    /// The URL of a path.
    pub fn url_for(&self, path: &str) -> (r: Result<String, QueueError>)
        ensures
            translated(r) == url_of(self.anchor(), path@),
    {
        let c: Vec<String> = match self.relative_path(path) {
            Err(e) => {
                return Err(e);
            },
            Ok((c, _)) => c,
        };
        let suffix: String = text_of_path(&c);
        if suffix.as_str().unicode_len() == 0 {
            return Ok(copied(&self.root.root_url));
        }
        let mut r: String = self.root_child_prefix();
        r.append(suffix.as_str());
        Ok(r)
    }

    /// The URL at which a directory given with its root was once kept, with the
    /// root twice in it.
    pub fn legacy_directory_url(&self, path: &str) -> (r: Result<Option<String>, QueueError>)
        ensures
            (match r {
                Ok(u) => Ok(opt_text(u)),
                Err(e) => Err(e@),
            }) == legacy_url_of(self.anchor(), path@),
    {
        if self.root.local_root.is_none() {
            return Ok(None);
        }
        let (c, qualified) = match self.relative_path(path) {
            Err(e) => {
                return Err(e);
            },
            Ok(found) => found,
        };
        if !qualified {
            return Ok(None);
        }
        let suffix: String = strip_leading_slashes(path);
        let s: Vec<String> = split_path(suffix.as_str());
        assert(texts(s@).skip(0) =~= texts(s@));
        let s: Vec<String> = drop_dots(&s, 0);
        if same_components(&s, &c) {
            return Ok(None);
        }
        let mut r: String = self.root_child_prefix();
        r.append(suffix.as_str());
        Ok(Some(r))
    }

    /// Whether a directory may be made, from what a listing at its former URL
    /// gave. A layout that is still there, or that cannot be inspected, refuses
    /// it.
    pub fn reject_legacy_layout(legacy_url: &str, path: &str, listing: LegacyListing) -> (r: Result<
        (),
        QueueError,
    >)
        ensures
            translated(r) == match listing {
                LegacyListing::Empty | LegacyListing::NotFound => Ok(()),
                LegacyListing::Entries => Err(
                    QueueFault::Persistence(
                        "legacy queue layout at "@ + legacy_url@
                            + "; refusing to initialize queue directory "@ + debug_path(path@)
                            + ": stop all queue writers, back up both layouts, and perform explicit offline migration before retrying; do not overwrite or discard either history"@,
                    ),
                ),
                LegacyListing::Failed(error) => Err(
                    QueueFault::Persistence(
                        "cannot inspect legacy queue layout at "@ + legacy_url@
                            + "; refusing queue startup: "@ + error@,
                    ),
                ),
            },
    {
        match listing {
            LegacyListing::Empty => Ok(()),
            LegacyListing::NotFound => Ok(()),
            LegacyListing::Entries => {
                let shown: String = path_for_debug(path);
                let mut m: String = "legacy queue layout at ".to_owned();
                m.append(legacy_url);
                m.append("; refusing to initialize queue directory ");
                m.append(shown.as_str());
                m.append(
                    ": stop all queue writers, back up both layouts, and perform explicit offline migration before retrying; do not overwrite or discard either history",
                );
                Err(QueueError::Persistence(m))
            },
            LegacyListing::Failed(error) => {
                let mut m: String = "cannot inspect legacy queue layout at ".to_owned();
                m.append(legacy_url);
                m.append("; refusing queue startup: ");
                m.append(error.as_str());
                Err(QueueError::Persistence(m))
            },
        }
    }

    fn outside(&self, entry: &str) -> (r: QueueError)
        ensures
            r@ == outside_fault(self.anchor(), entry@),
    {
        let mut m: String =
            "queue filesystem LIST returned entry outside configured root ".to_owned();
        m.append(self.root.root_url.as_str());
        m.append(": ");
        m.append(entry);
        QueueError::Persistence(m)
    }

    /// The components of a listed entry under the root.
    pub fn relative_from_listed_url(&self, entry: &str) -> (r: Result<Vec<String>, QueueError>)
        ensures
            (match r {
                Ok(c) => Ok(texts(c@)),
                Err(e) => Err(e@),
            }) == relative_entry(self.anchor(), entry@),
    {
        proof {
            reveal_strlit("file://");
        }
        let text: String;
        let c: Vec<String>;
        match &self.root.local_root {
            Some(root) => {
                let path: String = match after_prefix(entry, "file://") {
                    None => {
                        return Err(self.outside(entry));
                    },
                    Some(path) => path,
                };
                let all: Vec<String> = split_path(path.as_str());
                match reject_parents(&all, path.as_str(), "queue filesystem LIST entry") {
                    Err(e) => {
                        return Err(e);
                    },
                    Ok(()) => {},
                }
                assert(texts(all@).skip(0) =~= texts(all@));
                let all: Vec<String> = drop_dots(&all, 0);
                let root: Vec<String> = split_path(root.as_str());
                assert(texts(root@).skip(0) =~= texts(root@));
                let root: Vec<String> = drop_dots(&root, 0);
                if !starts_at(&all, &root) {
                    return Err(self.outside(entry));
                }
                proof {
                    lemma_dots_stay_out(components(path@), root@.len() as int);
                }
                c = drop_dots(&all, root.len());
                text = text_of_path(&c);
            },
            None => {
                if same_text(entry, self.root.root_url.as_str()) {
                    c = Vec::new();
                    text = String::new();
                    assert(texts(c@) =~= Seq::empty());
                } else {
                    let prefix: String = self.root_child_prefix();
                    match after_prefix(entry, prefix.as_str()) {
                        None => {
                            return Err(self.outside(entry));
                        },
                        Some(rest) => {
                            c = split_path(rest.as_str());
                            text = rest;
                        },
                    }
                }
            },
        }
        if c.len() > 0 && same_text(c[0].as_str(), "/") {
            let mut m: String =
                "queue filesystem LIST returned absolute child suffix: ".to_owned();
            m.append(entry);
            return Err(QueueError::Persistence(m));
        }
        match reject_parents(&c, text.as_str(), "queue filesystem LIST entry") {
            Err(e) => Err(e),
            Ok(()) => Ok(c),
        }
    }

    /// The path of a listed entry, under the directory as it was asked for.
    pub fn listed_path(&self, requested_dir: &str, entry: &str) -> (r: Result<String, QueueError>)
        ensures
            translated(r) == listed_of(self.anchor(), requested_dir@, entry@),
    {
        let d: Vec<String> = match self.relative_path(requested_dir) {
            Err(e) => {
                return Err(e);
            },
            Ok((d, _)) => d,
        };
        let mut c: Vec<String> = match self.relative_from_listed_url(entry) {
            Err(e) => {
                return Err(e);
            },
            Ok(c) => c,
        };
        let ghost all = texts(c@);
        let last: Option<String> = c.pop();
        let name: String = match last {
            Some(name) => {
                assert(texts(c@) =~= all.drop_last());
                assert(name@ == all.last());
                name
            },
            None => {
                let m: String = self.non_child(requested_dir, entry);
                return Err(QueueError::Persistence(m));
            },
        };
        if !same_components(&c, &d) {
            let m: String = self.non_child(requested_dir, entry);
            return Err(QueueError::Persistence(m));
        }
        if same_text(name.as_str(), ".") {
            let mut m: String =
                "queue filesystem LIST returned entry without a child name: ".to_owned();
            m.append(entry);
            return Err(QueueError::Persistence(m));
        }
        let dir: Vec<char> = chars_of(requested_dir);
        let mut r: String = requested_dir.to_owned();
        if dir.len() > 0 && dir[dir.len() - 1] != '/' {
            r.append("/");
        }
        r.append(name.as_str());
        assert(r@ =~= path_under(requested_dir@, all.last()));
        Ok(r)
    }

    fn non_child(&self, dir: &str, entry: &str) -> (r: String)
        ensures
            r@ == "queue filesystem LIST returned non-child entry for "@ + debug_path(dir@) + ": "@
                + entry@,
    {
        let shown: String = path_for_debug(dir);
        let mut m: String = "queue filesystem LIST returned non-child entry for ".to_owned();
        m.append(shown.as_str());
        m.append(": ");
        m.append(entry);
        m
    }

    /// The paths of listed entries.
    pub fn listed_paths(&self, requested_dir: &str, entries: &Vec<String>) -> (r: Result<
        Vec<String>,
        QueueError,
    >)
        ensures
            (match r {
                Ok(v) => Ok(texts(v@)),
                Err(e) => Err(e@),
            }) == all_ok(
                texts(entries@).map_values(
                    |e: Seq<char>| listed_of(self.anchor(), requested_dir@, e),
                ),
            ),
    {
        let ghost results = texts(entries@).map_values(
            |e: Seq<char>| listed_of(self.anchor(), requested_dir@, e),
        );
        let mut r: Vec<String> = Vec::new();
        let mut i: usize = 0;
        assert(results.take(0) =~= Seq::empty());
        assert(texts(r@) =~= Seq::empty());
        while i < entries.len()
            invariant
                i <= entries@.len(),
                results == texts(entries@).map_values(
                    |e: Seq<char>| listed_of(self.anchor(), requested_dir@, e),
                ),
                all_ok(results.take(i as int)) == Ok::<Seq<Seq<char>>, QueueFault>(texts(r@)),
            decreases entries@.len() - i,
        {
            proof {
                lemma_all_ok_step(results, i as int);
                assert(results[i as int] == listed_of(
                    self.anchor(),
                    requested_dir@,
                    entries@[i as int]@,
                ));
            }
            match self.listed_path(requested_dir, entries[i].as_str()) {
                Err(e) => {
                    proof {
                        lemma_all_ok_error(results, i + 1);
                    }
                    return Err(e);
                },
                Ok(path) => {
                    let ghost before = texts(r@);
                    r.push(path);
                    assert(texts(r@) =~= before.push(path@));
                },
            }
            i += 1;
        }
        assert(results.take(i as int) =~= results);
        Ok(r)
    }

    /// The URLs of some paths.
    pub fn urls_for(&self, paths: &Vec<String>) -> (r: Result<Vec<String>, QueueError>)
        ensures
            (match r {
                Ok(v) => Ok(texts(v@)),
                Err(e) => Err(e@),
            }) == all_ok(texts(paths@).map_values(|p: Seq<char>| url_of(self.anchor(), p))),
    {
        let ghost results = texts(paths@).map_values(|p: Seq<char>| url_of(self.anchor(), p));
        let mut r: Vec<String> = Vec::new();
        let mut i: usize = 0;
        assert(results.take(0) =~= Seq::empty());
        assert(texts(r@) =~= Seq::empty());
        while i < paths.len()
            invariant
                i <= paths@.len(),
                results == texts(paths@).map_values(|p: Seq<char>| url_of(self.anchor(), p)),
                all_ok(results.take(i as int)) == Ok::<Seq<Seq<char>>, QueueFault>(texts(r@)),
            decreases paths@.len() - i,
        {
            proof {
                lemma_all_ok_step(results, i as int);
                assert(results[i as int] == url_of(self.anchor(), paths@[i as int]@));
            }
            match self.url_for(paths[i].as_str()) {
                Err(e) => {
                    proof {
                        lemma_all_ok_error(results, i + 1);
                    }
                    return Err(e);
                },
                Ok(url) => {
                    let ghost before = texts(r@);
                    r.push(url);
                    assert(texts(r@) =~= before.push(url@));
                },
            }
            i += 1;
        }
        assert(results.take(i as int) =~= results);
        Ok(r)
    }

    /// The error of a read or a listing: a missing file is told apart.
    pub fn failed(operation: &str, url: &str, failure: FilesystemFailure) -> (r: QueueError)
        ensures
            r@ == match failure {
                FilesystemFailure::NotFound(text) => QueueFault::NotFound(
                    operation@ + " "@ + url@ + ": "@ + text@,
                ),
                FilesystemFailure::Other(text) => QueueFault::Persistence(text@),
            },
    {
        match failure {
            FilesystemFailure::NotFound(text) => {
                let mut m: String = operation.to_owned();
                m.append(" ");
                m.append(url);
                m.append(": ");
                m.append(text.as_str());
                QueueError::NotFound(m)
            },
            FilesystemFailure::Other(text) => QueueError::Persistence(text),
        }
    }
}

/// The text of a path with these components.
fn text_of_path(c: &Vec<String>) -> (r: String)
    ensures
        r@ == path_text(texts(c@)),
{
    if c.len() > 0 && same_text(c[0].as_str(), "/") {
        let rest: &[String] = vstd::slice::slice_subrange(c.as_slice(), 1, c.len());
        assert(texts(rest@) =~= texts(c@).skip(1));
        let tail: String = join_texts(rest, "/");
        let mut r: String = "/".to_owned();
        r.append(tail.as_str());
        r
    } else {
        join_texts(c.as_slice(), "/")
    }
}

fn strip_leading_slashes(path: &str) -> (r: String)
    ensures
        r@ == trim_start_char(path@, '/'),
{
    let s: Vec<char> = chars_of(path);
    let mut i: usize = 0;
    assert(s@.skip(0) =~= s@);
    while i < s.len() && s[i] == '/'
        invariant
            i <= s@.len(),
            s@ == path@,
            trim_start_char(path@, '/') == trim_start_char(s@.skip(i as int), '/'),
        decreases s@.len() - i,
    {
        assert(s@.skip(i as int).skip(1) =~= s@.skip(i + 1));
        i += 1;
    }
    let r: String = text_of_range(s.as_slice(), i, s.len());
    assert(r@ =~= s@.skip(i as int));
    r
}

proof fn lemma_no_dots(c: Seq<Seq<char>>)
    ensures
        forall|i: int| 0 <= i < without_dots(c).len() ==> #[trigger] without_dots(c)[i] != "."@,
    decreases c.len(),
{
    if c.len() > 0 {
        lemma_no_dots(c.drop_last());
        let before = without_dots(c.drop_last());
        assert forall|i: int| 0 <= i < without_dots(c).len() implies #[trigger] without_dots(c)[i]
            != "."@ by {
            if i < before.len() {
                assert(without_dots(c)[i] == before[i]);
            }
        }
    }
}

proof fn lemma_dotless(c: Seq<Seq<char>>)
    requires
        forall|i: int| 0 <= i < c.len() ==> #[trigger] c[i] != "."@,
    ensures
        without_dots(c) == c,
    decreases c.len(),
{
    if c.len() > 0 {
        assert(c[c.len() - 1] != "."@);
        assert forall|i: int| 0 <= i < c.drop_last().len() implies #[trigger] c.drop_last()[i]
            != "."@ by {
            assert(c[i] != "."@);
        }
        lemma_dotless(c.drop_last());
        assert(c.drop_last().push(c.last()) =~= c);
    }
}

proof fn lemma_dots_stay_out(c: Seq<Seq<char>>, k: int)
    requires
        0 <= k <= without_dots(c).len(),
    ensures
        without_dots(without_dots(c).skip(k)) == without_dots(c).skip(k),
{
    lemma_no_dots(c);
    let rest = without_dots(c).skip(k);
    assert forall|i: int| 0 <= i < rest.len() implies #[trigger] rest[i] != "."@ by {
        assert(rest[i] == without_dots(c)[k + i]);
    }
    lemma_dotless(rest);
}

proof fn lemma_climbs_of_both(a: Seq<Seq<char>>, b: Seq<Seq<char>>)
    ensures
        climbs(a + b) == (climbs(a) || climbs(b)),
{
    if climbs(a) {
        let i = choose|i: int| 0 <= i < a.len() && a[i] == ".."@;
        assert((a + b)[i] == ".."@);
    }
    if climbs(b) {
        let i = choose|i: int| 0 <= i < b.len() && b[i] == ".."@;
        assert((a + b)[a.len() + i] == ".."@);
    }
    if climbs(a + b) {
        let i = choose|i: int| 0 <= i < (a + b).len() && (a + b)[i] == ".."@;
        if i < a.len() {
            assert(a[i] == ".."@);
        } else {
            assert(b[i - a.len()] == ".."@);
        }
    }
}

proof fn lemma_climbs_without_dots(c: Seq<Seq<char>>)
    ensures
        climbs(without_dots(c)) == climbs(c),
    decreases c.len(),
{
    reveal_strlit(".");
    reveal_strlit("..");
    assert("."@.len() != ".."@.len());
    if c.len() > 0 {
        let before = c.drop_last();
        lemma_climbs_without_dots(before);
        assert(before + seq![c.last()] =~= c);
        lemma_climbs_of_both(before, seq![c.last()]);
        let last = seq![c.last()];
        assert(climbs(last) == (c.last() == ".."@)) by {
            if climbs(last) {
                let i = choose|i: int| 0 <= i < last.len() && last[i] == ".."@;
                assert(i == 0);
            }
            assert(last[0] == c.last());
        }
        if c.last() != "."@ {
            assert(without_dots(before).push(c.last()) =~= without_dots(before) + last);
            lemma_climbs_of_both(without_dots(before), last);
        }
    }
}

/// A path has one URL, whether it is given under the root or with the root before
/// it.
pub proof fn law_both_coordinates_agree(root: RootModel, path: Seq<char>)
    requires
        root.local_root is Some,
        root.local_root->0.len() > 0,
        !climbs(components(root.local_root->0)),
        !is_absolute(path),
        !climbs(components(path)),
        !begins_with(components(path), components(root.local_root->0)),
    ensures
        url_of(root, path_under(root.local_root->0, path)) == url_of(root, path),
{
    let dir = root.local_root->0;
    let full = dir + seq!['/'] + path;
    let c = components(path);
    let d = components(dir);
    lemma_joined_components(dir, path);
    lemma_climbs_without_dots(c);
    lemma_climbs_of_both(d, without_dots(c));
    assert((d + without_dots(c)).take(d.len() as int) =~= d);
    assert((d + without_dots(c)).skip(d.len() as int) =~= without_dots(c));
    assert(without_dots(c).skip(0) =~= without_dots(c));
    lemma_dots_stay_out(c, 0);
    reveal_strlit("/");
    assert("/"@ =~= seq!['/']);
    if dir.last() == '/' {
        let shorter = dir.drop_last();
        assert(path_under(dir, path) =~= shorter + seq!['/'] + path);
        lemma_pieces_of_both(shorter, path, '/');
        lemma_pieces_of_both(shorter, Seq::empty(), '/');
        assert(shorter + seq!['/'] + Seq::<char>::empty() =~= dir);
        lemma_trailing_slash(shorter, path);
    } else {
        assert(path_under(dir, path) =~= full);
    }
}

/// Every URL is the root or lies under it: no part of the path climbs out.
pub proof fn law_urls_stay_under_the_root(root: RootModel, path: Seq<char>)
    ensures
        match url_of(root, path) {
            Ok(u) => u == root.root_url || (starts_with(u, child_prefix(root.root_url)) && (
            relative_of(root, path) matches Ok((c, _)) && !climbs(c) && u == child_prefix(
                root.root_url,
            ) + path_text(c))),
            Err(_) => true,
        },
{
    if let Ok((c, _)) = relative_of(root, path) {
        let all = components(path);
        let prefix = child_prefix(root.root_url);
        let u = prefix + path_text(c);
        assert(u.subrange(0, prefix.len() as int) =~= prefix);
        lemma_climbs_without_dots(all);
        if root.local_root is Some && begins_with(all, components(root.local_root->0)) {
            let k = components(root.local_root->0).len() as int;
            lemma_climbs_without_dots(all.skip(k));
            assert(all.take(k) + all.skip(k) =~= all);
            lemma_climbs_of_both(all.take(k), all.skip(k));
        }
    }
}

/// A slash at the end of a directory is none of its components.
proof fn lemma_trailing_slash(shorter: Seq<char>, path: Seq<char>)
    requires
        !is_absolute(path),
    ensures
        components(shorter + seq!['/'] + path) == components(shorter + seq!['/']) + without_dots(
            components(path),
        ),
{
    let dir = shorter + seq!['/'];
    let all = shorter + seq!['/'] + path;
    if shorter.len() > 0 {
        lemma_joined_components(shorter, path);
        lemma_joined_components(shorter, Seq::empty());
        assert(shorter + seq!['/'] + Seq::<char>::empty() =~= dir);
        lemma_empty_path();
        assert(components(dir) =~= components(shorter));
    } else {
        lemma_pieces_of_both(shorter, path, '/');
        lemma_pieces_of_both(shorter, Seq::empty(), '/');
        assert(shorter + seq!['/'] + Seq::<char>::empty() =~= dir);
        lemma_empty_path();
        lemma_find_char(shorter, '/', 0);
        assert(shorter =~= Seq::empty());
        let e = pieces(Seq::<char>::empty(), '/');
        lemma_components_of_both(e, pieces(path, '/'));
        lemma_components_of_both(e, e);
        assert(all[0] == '/' && dir[0] == '/');
        assert(components(all) =~= components(dir) + without_dots(components(path)));
    }
}

proof fn lemma_empty_path()
    ensures
        components(Seq::empty()) == Seq::<Seq<char>>::empty(),
        pieces(Seq::empty(), '/').len() > 0,
        piece_components(pieces(Seq::empty(), '/')) == Seq::<Seq<char>>::empty(),
{
    let s = Seq::<char>::empty();
    assert(find_char(s, '/', 0) is None);
    assert(pieces(s, '/') =~= seq![s.skip(0)]);
    let p = pieces(s, '/');
    assert(p.last().len() == 0);
    assert(p.drop_last() =~= Seq::empty());
    assert(piece_components(p.drop_last()) =~= Seq::empty());
}

} // verus!
