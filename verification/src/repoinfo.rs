//! Descriptions of repositories, as `.repo` files give them.

use vstd::prelude::*;
use vstd::string::StrSliceExecFns;
use vstd::string::StringExecFns;
use url::Url;
use crate::text::split;
use crate::text::split_spec;
use crate::text::str_eq;
use crate::text::str_lowercase;
use crate::text::texts;
use crate::text::to_lowercase;
use crate::tribool::Tribool;
use crate::urls::url_parse_text;
use crate::urls::url_text;
use crate::urls::url_texts;

verus! {

/// What is wrong with a `.repo` file.
#[derive(Clone, Debug, PartialEq, Eq)]
pub enum ParseRepoFileError {
    /// The file is no INI file; the text is the parser's complaint.
    ParserError(String),
    /// The value of a key cannot be read.
    InvalidValue { key: String, value: String },
}

/// What is wrong with a repository description.
#[derive(Clone, Debug, PartialEq, Eq)]
pub enum Error {
    /// The text names no repository type.
    UnknownRepoType(String),
    ParseRepoFileError(ParseRepoFileError),
}

/// The mathematical value of an [`Error`].
pub enum ErrorView {
    UnknownRepoType(Seq<char>),
    ParserError(Seq<char>),
    InvalidValue { key: Seq<char>, value: Seq<char> },
}

impl View for Error {
    type V = ErrorView;

    open spec fn view(&self) -> ErrorView {
        match *self {
            Error::UnknownRepoType(name) => ErrorView::UnknownRepoType(name@),
            Error::ParseRepoFileError(ParseRepoFileError::ParserError(why)) => ErrorView::ParserError(
                why@,
            ),
            Error::ParseRepoFileError(
                ParseRepoFileError::InvalidValue { key, value },
            ) => ErrorView::InvalidValue { key: key@, value: value@ },
        }
    }
}

impl ParseRepoFileError {
    /// The message of this error as a spec value.
    pub open spec fn spec_message(&self) -> Seq<char> {
        match self {
            ParseRepoFileError::ParserError(why) => "Failed to parse file with error: "@ + why@
                + "."@,
            ParseRepoFileError::InvalidValue { key, value } => "Value "@ + value@ + " for key "@
                + key@ + " is not valid"@,
        }
    }

    /// The message of this error.
    pub fn to_string(&self) -> (text: String)
        ensures
            text@ == self.spec_message(),
    {
        match self {
            ParseRepoFileError::ParserError(why) => String::from_str(
                "Failed to parse file with error: ",
            ).concat(why.as_str()).concat("."),
            ParseRepoFileError::InvalidValue { key, value } => String::from_str("Value ").concat(
                value.as_str(),
            ).concat(" for key ").concat(key.as_str()).concat(" is not valid"),
        }
    }
}

impl Error {
    /// The message of this error as a spec value.
    pub open spec fn spec_message(&self) -> Seq<char> {
        match self {
            Error::UnknownRepoType(name) => "The repo type "@ + name@ + " is not known"@,
            Error::ParseRepoFileError(e) => e.spec_message(),
        }
    }

    /// The message of this error.
    pub fn to_string(&self) -> (text: String)
        ensures
            text@ == self.spec_message(),
    {
        match self {
            Error::UnknownRepoType(name) => String::from_str("The repo type ").concat(
                name.as_str(),
            ).concat(" is not known"),
            Error::ParseRepoFileError(e) => e.to_string(),
        }
    }
}

impl From<ParseRepoFileError> for Error {
    fn from(source: ParseRepoFileError) -> (e: Error) {
        Error::ParseRepoFileError(source)
    }
}

impl vstd::std_specs::convert::FromSpecImpl<ParseRepoFileError> for Error {
    open spec fn obeys_from_spec() -> bool {
        true
    }

    open spec fn from_spec(source: ParseRepoFileError) -> Error {
        Error::ParseRepoFileError(source)
    }
}

/// The kind of a repository.
#[derive(Clone, Copy, Debug, PartialEq, Eq, Structural)]
pub enum RepoType {
    /// No kind at all.
    NoType,
    RpmMd,
    Yast2,
    RpmPlainDir,
}

impl Default for RepoType {
    fn default() -> (t: RepoType)
        ensures
            t == RepoType::NoType,
    {
        RepoType::NoType
    }
}

/// The repository type that a lower-case name stands for.
pub open spec fn repo_type_of(lower: Seq<char>) -> Option<RepoType> {
    if lower == "rpm-md"@ || lower == "rpm"@ || lower == "rpmmd"@ || lower == "repomd"@ || lower
        == "yum"@ || lower == "up2date"@ {
        Some(RepoType::RpmMd)
    } else if lower == "yast2"@ || lower == "yast"@ || lower == "susetags"@ {
        Some(RepoType::Yast2)
    } else if lower == "plaindir"@ {
        Some(RepoType::RpmPlainDir)
    } else if lower == "none"@ {
        Some(RepoType::NoType)
    } else {
        None
    }
}

impl RepoType {
    /// The repository type that a lower-case name stands for.
    pub fn from_lowercase(lower: &str) -> (t: Option<RepoType>)
        ensures
            t == repo_type_of(lower@),
    {
        if str_eq(lower, "rpm-md") || str_eq(lower, "rpm") || str_eq(lower, "rpmmd") || str_eq(
            lower,
            "repomd",
        ) || str_eq(lower, "yum") || str_eq(lower, "up2date") {
            Some(RepoType::RpmMd)
        } else if str_eq(lower, "yast2") || str_eq(lower, "yast") || str_eq(lower, "susetags") {
            Some(RepoType::Yast2)
        } else if str_eq(lower, "plaindir") {
            Some(RepoType::RpmPlainDir)
        } else if str_eq(lower, "none") {
            Some(RepoType::NoType)
        } else {
            None
        }
    }

    /// Reads a repository type from its name, in any case. A name that
    /// stands for none is returned in the error as it was given.
    pub fn from_str(s: &str) -> (r: Result<RepoType, Error>)
        ensures
            match repo_type_of(str_lowercase(s@)) {
                Some(t) => r == Ok::<RepoType, Error>(t),
                None => r matches Err(e) && e@ == ErrorView::UnknownRepoType(s@),
            },
    {
        let lower = to_lowercase(s);
        match RepoType::from_lowercase(lower.as_str()) {
            Some(t) => Ok(t),
            None => Err(Error::UnknownRepoType(String::from_str(s))),
        }
    }

    /// The name of a repository type as a spec value.
    pub open spec fn spec_name(self) -> Seq<char> {
        match self {
            RepoType::NoType => "none"@,
            RepoType::RpmMd => "rpm-md"@,
            RepoType::Yast2 => "yast2"@,
            RepoType::RpmPlainDir => "plaindir"@,
        }
    }

    /// The name of a repository type.
    pub fn to_string(&self) -> (name: String)
        ensures
            name@ == self.spec_name(),
    {
        match self {
            RepoType::NoType => String::from_str("none"),
            RepoType::RpmMd => String::from_str("rpm-md"),
            RepoType::Yast2 => String::from_str("yast2"),
            RepoType::RpmPlainDir => String::from_str("plaindir"),
        }
    }
}


/// The name of every repository type is lower-case text that stands for
/// that type again, so no two types have the same name.
pub proof fn lemma_name_reads_back(t: RepoType)
    ensures
        repo_type_of(t.spec_name()) == Some(t),
{
    reveal_strlit("rpm-md");
    reveal_strlit("rpm");
    reveal_strlit("rpmmd");
    reveal_strlit("repomd");
    reveal_strlit("yum");
    reveal_strlit("up2date");
    reveal_strlit("yast2");
    reveal_strlit("yast");
    reveal_strlit("susetags");
    reveal_strlit("plaindir");
    reveal_strlit("none");
    let name = t.spec_name();
    match t {
        RepoType::NoType => {
            assert(name.len() == 4);
            assert(name[0] == 'n');
        },
        RepoType::RpmMd => {
            assert(name.len() == 6);
        },
        RepoType::Yast2 => {
            assert(name.len() == 5);
            assert(name[0] == 'y');
        },
        RepoType::RpmPlainDir => {
            assert(name.len() == 8);
            assert(name[0] == 'p');
        },
    }
}

/// Different repository types have different names.
pub proof fn lemma_names_differ(a: RepoType, b: RepoType)
    requires
        a != b,
    ensures
        a.spec_name() != b.spec_name(),
{
    lemma_name_reads_back(a);
    lemma_name_reads_back(b);
}

/// The description of one repository.
#[derive(Debug)]
pub struct RepoInfo {
    pub repo_alias: String,
    pub repo_name: String,
    pub repo_type: RepoType,
    pub raw_gpg_check: Tribool,
    pub base_urls: Vec<Url>,
    metadata_path: String,
    packages_path: String,
}

/// The mathematical value of a [`RepoInfo`].
pub struct RepoInfoView {
    pub repo_alias: Seq<char>,
    pub repo_name: Seq<char>,
    pub repo_type: RepoType,
    pub raw_gpg_check: Tribool,
    pub base_urls: Seq<Seq<char>>,
    pub metadata_path: Seq<char>,
    pub packages_path: Seq<char>,
}

impl View for RepoInfo {
    type V = RepoInfoView;

    closed spec fn view(&self) -> RepoInfoView {
        RepoInfoView {
            repo_alias: self.repo_alias@,
            repo_name: self.repo_name@,
            repo_type: self.repo_type,
            raw_gpg_check: self.raw_gpg_check,
            base_urls: url_texts(self.base_urls@),
            metadata_path: self.metadata_path@,
            packages_path: self.packages_path@,
        }
    }
}

/// The description of a repository of which only the alias is known: no
/// name, no type, no URL, no path, and no signature check.
pub open spec fn blank(alias: Seq<char>) -> RepoInfoView {
    RepoInfoView {
        repo_alias: alias,
        repo_name: Seq::empty(),
        repo_type: RepoType::NoType,
        raw_gpg_check: Tribool::False,
        base_urls: Seq::empty(),
        metadata_path: Seq::empty(),
        packages_path: Seq::empty(),
    }
}

/// The key of a section with its value, if it has one.
pub type Prop = (String, Option<String>);

/// The mathematical value of a key with its value.
pub open spec fn prop_view(p: Prop) -> (Seq<char>, Option<Seq<char>>) {
    (
        p.0@,
        match p.1 {
            Some(v) => Some(v@),
            None => None,
        },
    )
}

/// The mathematical value of the keys of a section.
pub open spec fn props_view(props: Seq<Prop>) -> Seq<(Seq<char>, Option<Seq<char>>)> {
    props.map_values(|p: Prop| prop_view(p))
}

/// The URLs that the texts from `from` on spell, behind those of `done`;
/// `None` where one of the texts is no URL.
pub open spec fn parse_urls(values: Seq<Seq<char>>, from: nat, done: Seq<Seq<char>>) -> Option<
    Seq<Seq<char>>,
>
    decreases values.len() - from,
{
    if from >= values.len() {
        Some(done)
    } else {
        match url_parse_text(values[from as int]) {
            Some(url) => parse_urls(values, from + 1, done.push(url)),
            None => None,
        }
    }
}

/// What one key of a section does to a description. The value counts line
/// by line. `type` sets the repository type from the first line, `name`
/// the name; `raw_gpg_check` reads the whole value as a truth value;
/// `baseurl` adds every line as a URL. Keys are told apart in lower case,
/// and a key that is none of these does nothing.
pub open spec fn apply_prop(info: RepoInfoView, key: Seq<char>, val: Seq<char>) -> Result<
    RepoInfoView,
    ErrorView,
> {
    let values = split_spec(val, '\n');
    let first = values[0];
    let lower = str_lowercase(key);
    if lower == "type"@ {
        match repo_type_of(str_lowercase(first)) {
            Some(t) => Ok(RepoInfoView { repo_type: t, ..info }),
            None => Err(ErrorView::UnknownRepoType(first)),
        }
    } else if lower == "name"@ {
        Ok(RepoInfoView { repo_name: first, ..info })
    } else if lower == "raw_gpg_check"@ {
        match crate::tribool::spec_parse(val) {
            Some(t) => Ok(RepoInfoView { raw_gpg_check: t, ..info }),
            None => Err(ErrorView::InvalidValue { key: key, value: first }),
        }
    } else if lower == "baseurl"@ {
        match parse_urls(values, 0, info.base_urls) {
            Some(urls) => Ok(RepoInfoView { base_urls: urls, ..info }),
            None => Err(ErrorView::InvalidValue { key: key, value: val }),
        }
    } else {
        Ok(info)
    }
}

/// What the keys of a section from `from` on do to a description, one
/// after the other. A key without a value does nothing; the first key that
/// cannot be read ends the reading with its error.
pub open spec fn apply_props(
    info: RepoInfoView,
    props: Seq<(Seq<char>, Option<Seq<char>>)>,
    from: nat,
) -> Result<RepoInfoView, ErrorView>
    decreases props.len() - from,
{
    if from >= props.len() {
        Ok(info)
    } else {
        match props[from as int].1 {
            None => apply_props(info, props, from + 1),
            Some(val) => match apply_prop(info, props[from as int].0, val) {
                Ok(next) => apply_props(next, props, from + 1),
                Err(e) => Err(e),
            },
        }
    }
}

/// The mathematical value of a description or of the error in its place.
pub open spec fn info_result_view(r: Result<RepoInfo, Error>) -> Result<RepoInfoView, ErrorView> {
    match r {
        Ok(info) => Ok(info@),
        Err(e) => Err(e@),
    }
}

/// The kind of repository that a cache directory holds, by what was found
/// at its place: for something that is no directory, the first of
/// `repodata/repomd.xml`, `content` and `cookie` that is a file below it
/// decides; a directory holds no kind.
pub open spec fn probed_type(is_dir: bool, repomd: bool, content: bool, cookie: bool) -> RepoType {
    if is_dir {
        RepoType::NoType
    } else if repomd {
        RepoType::RpmMd
    } else if content {
        RepoType::Yast2
    } else if cookie {
        RepoType::RpmPlainDir
    } else {
        RepoType::NoType
    }
}

impl Default for RepoInfo {
    fn default() -> (info: RepoInfo)
        ensures
            info@ == blank(Seq::empty()),
    {
        let info = RepoInfo {
            repo_alias: String::new(),
            repo_name: String::new(),
            repo_type: RepoType::NoType,
            raw_gpg_check: Tribool::default(),
            base_urls: Vec::new(),
            metadata_path: String::new(),
            packages_path: String::new(),
        };
        assert(url_texts(info.base_urls@) =~= Seq::<Seq<char>>::empty());
        info
    }
}

impl RepoInfo {
    #[verifier::loop_isolation(false)]
    fn add_urls(&mut self, key: &str, val: &str, values: &Vec<String>) -> (r: Result<(), Error>)
        ensures
            match parse_urls(texts(values@), 0, old(self)@.base_urls) {
                Some(urls) => r is Ok && final(self)@ == (RepoInfoView {
                    base_urls: urls,
                    ..old(self)@
                }),
                None => r matches Err(e) && e@ == (ErrorView::InvalidValue {
                    key: key@,
                    value: val@,
                }),
            },
    {
        let ghost list = texts(values@);
        let ghost goal = parse_urls(list, 0, self@.base_urls);
        let mut i: usize = 0;
        while i < values.len()
            invariant
                i <= values@.len(),
                goal == parse_urls(list, i as nat, self@.base_urls),
                self@ == (RepoInfoView { base_urls: self@.base_urls, ..old(self)@ }),
            decreases values@.len() - i,
        {
            assert(list[i as int] == values@[i as int]@);
            match Url::parse(values[i].as_str()) {
                Ok(url) => {
                    let ghost before = self.base_urls@;
                    self.base_urls.push(url);
                    assert(url_texts(self.base_urls@) =~= url_texts(before).push(url_text(url)));
                },
                Err(_) => {
                    return Err(
                        Error::ParseRepoFileError(
                            ParseRepoFileError::InvalidValue {
                                key: String::from_str(key),
                                value: String::from_str(val),
                            },
                        ),
                    );
                },
            }
            i = i + 1;
        }
        Ok(())
    }

    fn apply(&mut self, key: &str, val: &str) -> (r: Result<(), Error>)
        ensures
            match apply_prop(old(self)@, key@, val@) {
                Ok(next) => r is Ok && final(self)@ == next,
                Err(e) => r matches Err(got) && got@ == e,
            },
    {
        let values = split(val, '\n');
        proof {
            crate::text::lemma_split_nonempty(val@, '\n');
            assert(texts(values@)[0] == values@[0]@);
        }
        let first = values[0].as_str();
        let lower = to_lowercase(key);
        if str_eq(lower.as_str(), "type") {
            match RepoType::from_str(first) {
                Ok(t) => {
                    self.repo_type = t;
                    Ok(())
                },
                Err(e) => Err(e),
            }
        } else if str_eq(lower.as_str(), "name") {
            self.repo_name = String::from_str(first);
            Ok(())
        } else if str_eq(lower.as_str(), "raw_gpg_check") {
            match Tribool::parse(val) {
                Some(t) => {
                    self.raw_gpg_check = t;
                    Ok(())
                },
                None => Err(
                    Error::ParseRepoFileError(
                        ParseRepoFileError::InvalidValue {
                            key: String::from_str(key),
                            value: String::from_str(first),
                        },
                    ),
                ),
            }
        } else if str_eq(lower.as_str(), "baseurl") {
            self.add_urls(key, val, &values)
        } else {
            Ok(())
        }
    }

    /// Reads the description of the repository `sec` from the keys of its
    /// section, in the order in which they are given.
    #[verifier::loop_isolation(false)]
    pub fn from_section(sec: &str, props: &Vec<Prop>) -> (r: Result<RepoInfo, Error>)
        ensures
            info_result_view(r) == apply_props(blank(sec@), props_view(props@), 0),
    {
        let mut info = RepoInfo::default();
        info.repo_alias = String::from_str(sec);
        let ghost list = props_view(props@);
        let ghost goal = apply_props(blank(sec@), list, 0);
        let mut i: usize = 0;
        while i < props.len()
            invariant
                i <= props@.len(),
                goal == apply_props(info@, list, i as nat),
            decreases props@.len() - i,
        {
            assert(list[i as int] == prop_view(props@[i as int]));
            match &props[i].1 {
                None => {},
                Some(val) => {
                    match info.apply(props[i].0.as_str(), val.as_str()) {
                        Ok(()) => {},
                        Err(e) => {
                            return Err(e);
                        },
                    }
                },
            }
            i = i + 1;
        }
        Ok(info)
    }

    /// The kind of repository that a cache directory holds, by what was
    /// found at its place.
    pub fn probe_cache(is_dir: bool, repomd: bool, content: bool, cookie: bool) -> (t: RepoType)
        ensures
            t == probed_type(is_dir, repomd, content, cookie),
    {
        let mut rtype = RepoType::NoType;
        if !is_dir {
            if repomd {
                rtype = RepoType::RpmMd;
            } else if content {
                rtype = RepoType::Yast2;
            } else if cookie {
                rtype = RepoType::RpmPlainDir;
            }
        }
        rtype
    }

    /// The alias of the repository.
    pub fn repo_alias(&self) -> (alias: &String)
        ensures
            alias@ == self@.repo_alias,
    {
        &self.repo_alias
    }

    /// The name of the repository.
    pub fn repo_name(&self) -> (name: &String)
        ensures
            name@ == self@.repo_name,
    {
        &self.repo_name
    }

    /// The kind of the repository.
    pub fn repo_type(&self) -> (t: RepoType)
        ensures
            t == self@.repo_type,
    {
        self.repo_type
    }

    /// Whether signatures are checked.
    pub fn raw_gpg_check(&self) -> (check: Tribool)
        ensures
            check == self@.raw_gpg_check,
    {
        self.raw_gpg_check
    }

    /// The URLs of the repository, in their order.
    pub fn base_urls(&self) -> (urls: &Vec<Url>)
        ensures
            url_texts(urls@) == self@.base_urls,
    {
        &self.base_urls
    }

    /// Sets whether signatures are checked.
    pub fn set_gpg_check(&mut self, check: Tribool)
        ensures
            final(self)@ == (RepoInfoView { raw_gpg_check: check, ..old(self)@ }),
    {
        self.raw_gpg_check = check;
    }

    /// Sets the path of the repository's metadata.
    pub fn set_metadata_path(&mut self, new_path: &str)
        ensures
            final(self)@ == (RepoInfoView { metadata_path: new_path@, ..old(self)@ }),
    {
        self.metadata_path = String::from_str(new_path);
    }

    /// Sets the path of the repository's packages.
    pub fn set_packages_path(&mut self, new_path: &str)
        ensures
            final(self)@ == (RepoInfoView { packages_path: new_path@, ..old(self)@ }),
    {
        self.packages_path = String::from_str(new_path);
    }

    /// The path of the repository's metadata.
    pub fn metadata_path(&self) -> (path: &String)
        ensures
            path@ == self@.metadata_path,
    {
        &self.metadata_path
    }

    /// The path of the repository's packages.
    pub fn packages_path(&self) -> (path: &String)
        ensures
            path@ == self@.packages_path,
    {
        &self.packages_path
    }
}


/// A section of a `.repo` file: its name and its keys.
pub type Section = (String, Vec<Prop>);

/// The mathematical value of a section.
pub open spec fn section_view(s: Section) -> (Seq<char>, Seq<(Seq<char>, Option<Seq<char>>)>) {
    (s.0@, props_view(s.1@))
}

/// The mathematical value of the sections of a file.
pub open spec fn sections_view(sections: Seq<Section>) -> Seq<
    (Seq<char>, Seq<(Seq<char>, Option<Seq<char>>)>),
> {
    sections.map_values(|s: Section| section_view(s))
}

/// No two entries of the list have the same name.
pub open spec fn distinct_names<V>(pairs: Seq<(Seq<char>, V)>) -> bool {
    forall|i: int, j: int|
        0 <= i < j < pairs.len() ==> (#[trigger] pairs[i]).0 != (#[trigger] pairs[j]).0
}

/// The entries of a list by their names.
pub open spec fn by_name<V>(pairs: Seq<(Seq<char>, V)>) -> Map<Seq<char>, V> {
    Map::new(
        |name: Seq<char>| exists|i: int| 0 <= i < pairs.len() && (#[trigger] pairs[i]).0 == name,
        |name: Seq<char>|
            pairs[choose|i: int| 0 <= i < pairs.len() && (#[trigger] pairs[i]).0 == name].1,
    )
}

/// The sections of a list by their names, each with its keys by their
/// names.
pub open spec fn sections_by_name(
    sections: Seq<(Seq<char>, Seq<(Seq<char>, Option<Seq<char>>)>)>,
) -> Map<Seq<char>, Map<Seq<char>, Option<Seq<char>>>> {
    by_name(
        sections.map_values(
            |s: (Seq<char>, Seq<(Seq<char>, Option<Seq<char>>)>)| (s.0, by_name(s.1)),
        ),
    )
}

/// The sections that `configparser::ini::Ini::read` finds in a text, with
/// values that may run over several lines, by their names and the names of
/// their keys; `None` where it rejects the text.
pub uninterp spec fn ini_sections(text: Seq<char>) -> Option<
    Map<Seq<char>, Map<Seq<char>, Option<Seq<char>>>>,
>;

/// The longest text, in characters, that is handed to the parser of
/// `.repo` files.
pub const MAX_REPO_TEXT: usize = 0x3fff_ffff;

/// What is said of a text that is longer than that.
pub open spec fn too_long() -> Seq<char> {
    "text too long"@
}

/// Calls `configparser::ini::Ini::read` on a parser for values of several
/// lines, and lists the sections and keys of the map that it returns. The
/// map decides no order, so the lists come in any; no name comes twice.
/// The parser numbers the lines of the text in 32 bits and must not run
/// out of numbers: a text within the bound has fewer lines than that.
#[verifier::external_body]
fn parse_ini(text: String) -> (r: Result<Vec<Section>, String>)
    requires
        text@.len() <= MAX_REPO_TEXT,
    ensures
        match r {
            Ok(sections) => {
                &&& ini_sections(text@) == Some(sections_by_name(sections_view(sections@)))
                &&& distinct_names(sections_view(sections@))
                &&& forall|i: int|
                    0 <= i < sections@.len() ==> distinct_names(
                        (#[trigger] sections_view(sections@)[i]).1,
                    )
            },
            Err(_) => ini_sections(text@) is None,
        },
{
    let mut config = configparser::ini::Ini::new();
    config.set_multiline(true);
    let map = config.read(text)?;
    Ok(map.into_iter().map(|(name, keys)| (name, keys.into_iter().collect())).collect())
}

/// The mathematical value of a list of descriptions.
pub open spec fn infos_view(infos: Seq<RepoInfo>) -> Seq<RepoInfoView> {
    infos.map_values(|info: RepoInfo| info@)
}

/// The descriptions that the sections from `from` on give, behind those of
/// `done`. A section without a name gives none; the first section that
/// cannot be read ends the reading with its error.
pub open spec fn read_sections(
    sections: Seq<(Seq<char>, Seq<(Seq<char>, Option<Seq<char>>)>)>,
    from: nat,
    done: Seq<RepoInfoView>,
) -> Result<Seq<RepoInfoView>, ErrorView>
    decreases sections.len() - from,
{
    if from >= sections.len() {
        Ok(done)
    } else if sections[from as int].0.len() == 0 {
        read_sections(sections, from + 1, done)
    } else {
        match apply_props(blank(sections[from as int].0), sections[from as int].1, 0) {
            Ok(info) => read_sections(sections, from + 1, done.push(info)),
            Err(e) => Err(e),
        }
    }
}

/// The mathematical value of a list of descriptions or of the error in its
/// place.
pub open spec fn infos_result_view(r: Result<Vec<RepoInfo>, Error>) -> Result<
    Seq<RepoInfoView>,
    ErrorView,
> {
    match r {
        Ok(infos) => Ok(infos_view(infos@)),
        Err(e) => Err(e@),
    }
}

impl RepoInfo {
    /// Reads the descriptions of repositories from the sections of a
    /// `.repo` file, in the order in which they are given.
    #[verifier::loop_isolation(false)]
    pub fn from_sections(sections: &Vec<Section>) -> (r: Result<Vec<RepoInfo>, Error>)
        ensures
            infos_result_view(r) == read_sections(sections_view(sections@), 0, Seq::empty()),
    {
        let mut res: Vec<RepoInfo> = Vec::new();
        let ghost list = sections_view(sections@);
        let ghost goal = read_sections(list, 0, Seq::empty());
        assert(infos_view(res@) =~= Seq::<RepoInfoView>::empty());
        let mut i: usize = 0;
        while i < sections.len()
            invariant
                i <= sections@.len(),
                goal == read_sections(list, i as nat, infos_view(res@)),
            decreases sections@.len() - i,
        {
            assert(list[i as int] == section_view(sections@[i as int]));
            let name = sections[i].0.as_str();
            if !str_eq(name, "") {
                proof {
                    reveal_strlit("");
                    assert(name@.len() != 0) by {
                        if name@.len() == 0 {
                            assert(name@ =~= ""@);
                        }
                    }
                }
                match RepoInfo::from_section(name, &sections[i].1) {
                    Ok(info) => {
                        let ghost before = res@;
                        res.push(info);
                        assert(infos_view(res@) =~= infos_view(before).push(info@));
                    },
                    Err(e) => {
                        return Err(e);
                    },
                }
            } else {
                proof {
                    reveal_strlit("");
                }
            }
            i = i + 1;
        }
        Ok(res)
    }

    /// Whether a text is short enough to be handed to the parser.
    pub fn fits_parser(text: &str) -> (b: bool)
        ensures
            b == (text@.len() <= MAX_REPO_TEXT),
    {
        text.unicode_len() <= MAX_REPO_TEXT
    }

    /// Reads the descriptions of repositories from the text of a `.repo`
    /// file. A text that is too long is not read: that is a parser error.
    /// So is a text that is no INI file. Otherwise the sections are read
    /// in some order, which the parser leaves open, and so are the keys of
    /// each section; no section and no key comes twice.
    pub fn read_from_text(text: String) -> (r: Result<Vec<RepoInfo>, Error>)
        ensures
            text@.len() > MAX_REPO_TEXT ==> (r matches Err(e) && e@ == ErrorView::ParserError(
                too_long(),
            )),
            text@.len() <= MAX_REPO_TEXT ==> match ini_sections(text@) {
                None => r matches Err(e) && e@ is ParserError,
                Some(found) => exists|sections: Seq<
                    (Seq<char>, Seq<(Seq<char>, Option<Seq<char>>)>),
                >|
                    {
                        &&& #[trigger] sections_by_name(sections) == found
                        &&& distinct_names(sections)
                        &&& forall|i: int|
                            0 <= i < sections.len() ==> distinct_names((#[trigger] sections[i]).1)
                        &&& infos_result_view(r) == read_sections(sections, 0, Seq::empty())
                    },
            },
    {
        if !RepoInfo::fits_parser(text.as_str()) {
            return Err(
                Error::ParseRepoFileError(
                    ParseRepoFileError::ParserError(String::from_str("text too long")),
                ),
            );
        }
        match parse_ini(text) {
            Err(why) => Err(Error::ParseRepoFileError(ParseRepoFileError::ParserError(why))),
            Ok(sections) => {
                let r = RepoInfo::from_sections(&sections);
                assert(sections_by_name(sections_view(sections@)) == ini_sections(text@)->0);
                r
            },
        }
    }
}

} // verus!
