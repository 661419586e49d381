//! Modules of a project: the import graph, its cycles, and resolution errors.

use vstd::prelude::*;
use vstd::string::StringExecFns;

use std::collections::HashMap;
use std::path::PathBuf;

use crate::text::text_eq;

pub mod cycles;

verus! {

broadcast use vstd::std_specs::vec::group_vec_axioms;

/// A path of the file system, carried through unread.
#[verifier::external_type_specification]
#[verifier::external_body]
pub struct ExPathBuf(PathBuf);

/// The id of a module: its path from the project root, with `.` between components.
pub type ModuleId = String;

/// One module of a project: its id, file, source text, and the ids of the
/// modules it imports.
#[derive(Debug, PartialEq, Eq)]
pub struct ModuleUnit {
    pub id: ModuleId,
    pub path: PathBuf,
    pub source: String,
    pub imports: Vec<ModuleId>,
}

/// The modules of a project, each under its own id.
#[derive(Debug, PartialEq, Eq)]
pub struct ModuleGraph {
    modules: Vec<ModuleUnit>,
}

/// No two modules of `modules` have the same id.
pub open spec fn distinct_ids(modules: Seq<ModuleUnit>) -> bool {
    forall|i: int, j: int| 0 <= i < modules.len() && 0 <= j < modules.len() && i != j ==> (#[trigger] modules[i]).id@ != (#[trigger] modules[j]).id@
}

impl ModuleGraph {
    #[verifier::type_invariant]
    spec fn ids_are_distinct(self) -> bool {
        distinct_ids(self.modules@)
    }

    /// The modules, in the order they were first inserted.
    pub closed spec fn units(self) -> Seq<ModuleUnit> {
        self.modules@
    }

    /// No module.
    pub fn new() -> (r: Self)
        ensures
            r.units() == Seq::<ModuleUnit>::empty(),
    {
        ModuleGraph { modules: Vec::new() }
    }

    /// The modules, in the order they were first inserted.
    pub fn modules(&self) -> (r: &Vec<ModuleUnit>)
        ensures
            r@ == self.units(),
            distinct_ids(r@),
    {
        proof {
            use_type_invariant(self);
        }
        &self.modules
    }

    /// The number of modules.
    pub fn len(&self) -> (r: usize)
        ensures
            r == self.units().len(),
    {
        self.modules.len()
    }

    /// The position of the module with id `id`.
    fn position(&self, id: &str) -> (r: Option<usize>)
        ensures
            match r {
                Some(i) => i < self.units().len() && self.units()[i as int].id@ == id@,
                None => forall|i: int| 0 <= i < self.units().len() ==> (#[trigger] self.units()[i]).id@ != id@,
            },
    {
        let mut i: usize = 0;
        while i < self.modules.len()
            invariant
                i <= self.modules@.len(),
                forall|j: int| 0 <= j < i ==> (#[trigger] self.modules@[j]).id@ != id@,
            decreases self.modules@.len() - i,
        {
            if text_eq(self.modules[i].id.as_str(), id) {
                return Some(i);
            }
            i += 1;
        }
        None
    }

    /// The module with id `id`, if there is one.
    pub fn get(&self, id: &str) -> (r: Option<&ModuleUnit>)
        ensures
            match r {
                Some(u) => exists|i: int| 0 <= i < self.units().len() && self.units()[i] == *u && u.id@ == id@,
                None => forall|i: int| 0 <= i < self.units().len() ==> (#[trigger] self.units()[i]).id@ != id@,
            },
    {
        match self.position(id) {
            Some(i) => Some(&self.modules[i]),
            None => None,
        }
    }

    /// Whether a module has id `id`.
    pub fn contains_key(&self, id: &str) -> (r: bool)
        ensures
            r == exists|i: int| 0 <= i < self.units().len() && (#[trigger] self.units()[i]).id@ == id@,
    {
        self.position(id).is_some()
    }

    /// Puts `unit` under its id, in the place of the module that had it (which
    /// is returned), or after the others.
    pub fn insert(&mut self, unit: ModuleUnit) -> (r: Option<ModuleUnit>)
        ensures
            match r {
                Some(old_unit) => exists|i: int| 0 <= i < old(self).units().len() && old(self).units()[i] == old_unit
                    && old_unit.id@ == unit.id@ && final(self).units() == old(self).units().update(i, unit),
                None => (forall|i: int| 0 <= i < old(self).units().len() ==> (#[trigger] old(self).units()[i]).id@ != unit.id@)
                    && final(self).units() == old(self).units().push(unit),
            },
    {
        proof {
            use_type_invariant(&*self);
        }
        match self.position(unit.id.as_str()) {
            Some(i) => {
                let mut modules = Vec::new();
                std::mem::swap(&mut modules, &mut self.modules);
                let ghost before = modules@;
                let mut replaced = unit;
                std::mem::swap(&mut modules[i], &mut replaced);
                assert(modules@ == before.update(i as int, unit));
                assert(distinct_ids(modules@)) by {
                    assert forall|a: int, b: int| 0 <= a < modules@.len() && 0 <= b < modules@.len() && a != b
                        implies (#[trigger] modules@[a]).id@ != (#[trigger] modules@[b]).id@ by {
                        assert(before[a].id@ != before[b].id@);
                    }
                }
                self.modules = modules;
                Some(replaced)
            },
            None => {
                let mut modules = Vec::new();
                std::mem::swap(&mut modules, &mut self.modules);
                modules.push(unit);
                self.modules = modules;
                None
            },
        }
    }
}

impl Default for ModuleGraph {
    fn default() -> (r: Self)
        ensures
            r.units() == Seq::<ModuleUnit>::empty(),
    {
        ModuleGraph::new()
    }
}

/// What a top-level name of a module stands for.
#[derive(Debug, Clone, Copy, PartialEq, Eq, Structural)]
pub enum SymbolKind {
    Fn,
    Struct,
    GlobalLet,
    Namespace,
}

/// A name as it is declared: the module that declares it, its name there,
/// and what it stands for.
#[derive(Debug, PartialEq, Eq)]
pub struct SymbolRef {
    pub module_id: ModuleId,
    pub local_name: String,
    pub kind: SymbolKind,
}

/// The names a module declares, each under its local name.
#[derive(Debug, PartialEq, Eq)]
pub struct ModuleSymbols {
    pub locals: HashMap<String, SymbolRef>,
}

/// What kind of failure resolving a project's modules met.
#[derive(Debug, Clone, Copy, PartialEq, Eq, Structural)]
pub enum ResolveErrorKind {
    MissingModule,
    AmbiguousModule,
    Io,
    Codegen,
    NonUtf8Path,
    InvalidModulePath,
    DuplicateModuleId,
    Parse,
    ImportConflict,
    NotExported,
    Cycle,
}

/// The diagnostic code of each kind of failure.
pub open spec fn kind_code(kind: ResolveErrorKind) -> Seq<char> {
    match kind {
        ResolveErrorKind::MissingModule => "E-MOD-NOT-FOUND"@,
        ResolveErrorKind::Cycle => "E-MOD-CYCLE"@,
        ResolveErrorKind::AmbiguousModule => "E-MOD-AMBIG"@,
        ResolveErrorKind::Codegen => "E-CODEGEN"@,
        ResolveErrorKind::Io => "E-MOD-IO"@,
        ResolveErrorKind::NonUtf8Path => "E-MOD-PATH"@,
        ResolveErrorKind::InvalidModulePath => "E-MOD-PATH"@,
        ResolveErrorKind::DuplicateModuleId => "E-MOD-DUPLICATE"@,
        ResolveErrorKind::Parse => "E-PARSE"@,
        ResolveErrorKind::ImportConflict => "E-IMPORT-CONFLICT"@,
        ResolveErrorKind::NotExported => "E-IMPORT-NOT-EXPORTED"@,
    }
}

fn code_for_kind(kind: ResolveErrorKind) -> (r: &'static str)
    ensures
        r@ == kind_code(kind),
{
    match kind {
        ResolveErrorKind::MissingModule => "E-MOD-NOT-FOUND",
        ResolveErrorKind::Cycle => "E-MOD-CYCLE",
        ResolveErrorKind::AmbiguousModule => "E-MOD-AMBIG",
        ResolveErrorKind::Codegen => "E-CODEGEN",
        ResolveErrorKind::Io => "E-MOD-IO",
        ResolveErrorKind::NonUtf8Path => "E-MOD-PATH",
        ResolveErrorKind::InvalidModulePath => "E-MOD-PATH",
        ResolveErrorKind::DuplicateModuleId => "E-MOD-DUPLICATE",
        ResolveErrorKind::Parse => "E-PARSE",
        ResolveErrorKind::ImportConflict => "E-IMPORT-CONFLICT",
        ResolveErrorKind::NotExported => "E-IMPORT-NOT-EXPORTED",
    }
}

/// A failure of resolution: its kind and diagnostic code, a message, and
/// where it was met, as far as that is known.
#[derive(Debug, PartialEq, Eq)]
pub struct ResolveError {
    pub kind: ResolveErrorKind,
    pub code: &'static str,
    pub message: String,
    pub path: Option<PathBuf>,
    pub line: Option<usize>,
    pub col: Option<usize>,
}

impl ResolveError {
    /// A failure of kind `kind`, with the kind's code and no position.
    pub fn new(kind: ResolveErrorKind, message: String, path: Option<PathBuf>) -> (r: Self)
        ensures
            r.kind == kind,
            r.code@ == kind_code(kind),
            r.message@ == message@,
            r.path == path,
            r.line is None,
            r.col is None,
    {
        ResolveError { kind, code: code_for_kind(kind), message, path, line: None, col: None }
    }

    /// The same failure under the code `code`.
    pub fn with_code(self, code: &'static str) -> (r: Self)
        ensures
            r.code == code,
            r.kind == self.kind,
            r.message == self.message,
            r.path == self.path,
            r.line == self.line,
            r.col == self.col,
    {
        let mut e = self;
        e.code = code;
        e
    }

    /// The same failure at line `line`, column `col`.
    pub fn with_line_col(self, line: usize, col: usize) -> (r: Self)
        ensures
            r.line == Some(line),
            r.col == Some(col),
            r.kind == self.kind,
            r.code == self.code,
            r.message == self.message,
            r.path == self.path,
    {
        let mut e = self;
        e.line = Some(line);
        e.col = Some(col);
        e
    }
}

/// Where an import leads: a module file, or a folder of modules.
#[derive(Debug, PartialEq, Eq)]
pub enum ImportTarget {
    File(PathBuf),
    Folder(PathBuf),
}

/// Texts joined by `sep`.
pub open spec fn joined(parts: Seq<Seq<char>>, sep: Seq<char>) -> Seq<char>
    decreases parts.len(),
{
    if parts.len() == 0 {
        seq![]
    } else if parts.len() == 1 {
        parts[0]
    } else {
        joined(parts.drop_last(), sep) + sep + parts.last()
    }
}

/// The texts of a list of strings joined by `sep`.
pub fn join_texts(parts: &[String], sep: &str) -> (r: String)
    ensures
        r@ == joined(parts@.map_values(|p: String| p@), sep@),
{
    let ghost views = parts@.map_values(|p: String| p@);
    let mut out = String::new();
    let mut i: usize = 0;
    while i < parts.len()
        invariant
            i <= parts@.len(),
            views == parts@.map_values(|p: String| p@),
            out@ == joined(views.take(i as int), sep@),
        decreases parts@.len() - i,
    {
        assert(views.take(i + 1).drop_last() =~= views.take(i as int));
        if i == 0 {
            out = parts[0].clone();
        } else {
            out.append(sep);
            out.append(parts[i].as_str());
        }
        i += 1;
    }
    assert(views.take(i as int) =~= views);
    out
}

/// Where an import `import_path` leads, given whether the module file and the
/// module folder it could name exist: the file or the folder where just one
/// does; an ambiguity where both do; a missing module where neither does
/// (those two are reported at the project root).
pub open spec fn import_target(import_path: Seq<Seq<char>>, file_exists: bool, folder_exists: bool) -> Result<bool, (ResolveErrorKind, Seq<char>)> {
    if file_exists && folder_exists {
        Err((ResolveErrorKind::AmbiguousModule, "Ambiguous import `"@ + joined(import_path, "."@) + "`: both "@))
    } else if file_exists {
        Ok(true)
    } else if folder_exists {
        Ok(false)
    } else {
        Err((ResolveErrorKind::MissingModule, "Module not found for import `"@ + joined(import_path, "."@) + "`"@))
    }
}

/// Decides where the import `import_path` leads (see `import_target`):
/// `file_path` and `folder_path` are the module file and folder it could
/// name, shown as `file_shown` and `folder_shown`; an ambiguity's message
/// ends with both and ` exist`.
pub fn choose_import_target(
    root: PathBuf,
    import_path: &[String],
    file_path: PathBuf,
    file_shown: &str,
    file_exists: bool,
    folder_path: PathBuf,
    folder_shown: &str,
    folder_exists: bool,
) -> (r: Result<ImportTarget, ResolveError>)
    ensures
        match import_target(import_path@.map_values(|p: String| p@), file_exists, folder_exists) {
            Ok(true) => r == Ok::<ImportTarget, ResolveError>(ImportTarget::File(file_path)),
            Ok(false) => r == Ok::<ImportTarget, ResolveError>(ImportTarget::Folder(folder_path)),
            Err((kind, prefix)) => r matches Err(e) && e.kind == kind && e.code@ == kind_code(kind)
                && e.path == Some(root) && e.line is None && e.col is None
                && (kind == ResolveErrorKind::MissingModule ==> e.message@ == prefix)
                && (kind == ResolveErrorKind::AmbiguousModule ==> e.message@ == prefix + file_shown@ + " and "@ + folder_shown@ + " exist"@),
        },
{
    if file_exists && folder_exists {
        let mut msg = String::from_str("Ambiguous import `");
        msg.append(join_texts(import_path, ".").as_str());
        msg.append("`: both ");
        msg.append(file_shown);
        msg.append(" and ");
        msg.append(folder_shown);
        msg.append(" exist");
        Err(ResolveError::new(ResolveErrorKind::AmbiguousModule, msg, Some(root)))
    } else if file_exists {
        Ok(ImportTarget::File(file_path))
    } else if folder_exists {
        Ok(ImportTarget::Folder(folder_path))
    } else {
        let mut msg = String::from_str("Module not found for import `");
        msg.append(join_texts(import_path, ".").as_str());
        msg.append("`");
        Err(ResolveError::new(ResolveErrorKind::MissingModule, msg, Some(root)))
    }
}

/// The text of a path component, or nothing for one that is not UTF-8.
pub open spec fn component_text(c: Option<Seq<char>>) -> Seq<char> {
    match c {
        Some(t) => t,
        None => Seq::empty(),
    }
}

/// The view of an optional text.
pub open spec fn optional_text(c: Option<String>) -> Option<Seq<char>> {
    match c {
        Some(t) => Some(t@),
        None => None,
    }
}

/// The views of optional texts.
pub open spec fn optional_texts(cs: Seq<Option<String>>) -> Seq<Option<Seq<char>>> {
    cs.map_values(|c: Option<String>| optional_text(c))
}

/// The module id that a path relative to the project root gives, or the
/// kind and message of the failure, from the path's extension, the
/// components of the path without it (none where a component is not
/// UTF-8), and the path as shown: the extension must be `sk`, every
/// component UTF-8, and some component left when the empty ones and `.`
/// are; the id is the kept components joined by `.`.
pub open spec fn path_id_outcome(extension: Option<Seq<char>>, components: Seq<Option<Seq<char>>>, shown: Seq<char>)
    -> Result<Seq<char>, (ResolveErrorKind, Seq<char>)>
{
    if extension != Some("sk"@) {
        Err((ResolveErrorKind::InvalidModulePath, "Expected .sk module path, got "@ + shown))
    } else if exists|i: int| 0 <= i < components.len() && #[trigger] components[i] is None {
        Err((ResolveErrorKind::NonUtf8Path, "Non-UTF8 path component in "@ + shown))
    } else if kept_components(components.map_values(|c: Option<Seq<char>>| component_text(c))).len() == 0 {
        Err((ResolveErrorKind::InvalidModulePath, "Cannot derive module id from path "@ + shown))
    } else {
        Ok(joined(kept_components(components.map_values(|c: Option<Seq<char>>| component_text(c))), "."@))
    }
}

/// `r` is the id or failure `o` describes (the failure's path aside).
pub open spec fn matches_outcome(r: Result<ModuleId, ResolveError>, o: Result<Seq<char>, (ResolveErrorKind, Seq<char>)>) -> bool {
    match o {
        Ok(id) => r matches Ok(x) && x@ == id,
        Err((kind, message)) => r matches Err(e) && e.kind == kind && e.code@ == kind_code(kind)
            && e.message@ == message && e.line is None && e.col is None,
    }
}

/// The extension of `path` (`Path::extension`), where it is UTF-8.
#[verifier::external_body]
fn path_extension(path: &PathBuf) -> (r: Option<String>) {
    path.extension().and_then(|e| e.to_str()).map(|e| e.to_string())
}

/// `path` with its extension taken off (`Path::with_extension` with an empty extension).
#[verifier::external_body]
fn path_without_extension(path: &PathBuf) -> (r: PathBuf) {
    path.with_extension("")
}

/// The components of `path` (`Path::components`), each as text where it is UTF-8.
#[verifier::external_body]
fn path_components(path: &PathBuf) -> (r: Vec<Option<String>>) {
    path.components().map(|c| c.as_os_str().to_str().map(|t| t.to_string())).collect()
}

/// `path` as `Path::display` shows it.
#[verifier::external_body]
fn path_shown(path: &PathBuf) -> (r: String) {
    format!("{}", path.display())
}

/// A copy of `path` (`PathBuf::clone`): the same path.
#[verifier::external_body]
fn path_copy(path: &PathBuf) -> (r: PathBuf)
    ensures
        r == *path,
{
    path.clone()
}

/// `path` with the leading `root` taken off (`Path::strip_prefix`); none
/// where `path` does not start with `root`.
#[verifier::external_body]
fn path_strip_prefix(path: &PathBuf, root: &PathBuf) -> (r: Option<PathBuf>) {
    path.strip_prefix(root).ok().map(|p| p.to_path_buf())
}

/// What scanning a folder makes of one file, from its extension, the
/// components of its path below the folder without the extension (none
/// where the path is not below the folder; a component none where it is not
/// UTF-8), the folder and the file as shown, and the import prefix: no
/// module unless the extension is `sk`; a failure where the path is not
/// below the folder or a component is not UTF-8; else the prefix and the
/// kept components joined by `.`, if there are any.
pub open spec fn folder_entry_outcome(
    extension: Option<Seq<char>>,
    relative: Option<Seq<Option<Seq<char>>>>,
    root_shown: Seq<char>,
    shown: Seq<char>,
    prefix: Seq<Seq<char>>,
) -> Result<Option<Seq<char>>, (ResolveErrorKind, Seq<char>)> {
    if extension != Some("sk"@) {
        Ok(None)
    } else {
        match relative {
            None => Err((ResolveErrorKind::Io, "Failed to strip folder prefix "@ + root_shown + " from "@ + shown)),
            Some(cs) => if exists|i: int| 0 <= i < cs.len() && #[trigger] cs[i] is None {
                Err((ResolveErrorKind::NonUtf8Path, "Non-UTF8 path component in "@ + shown))
            } else if prefix.len() + kept_components(cs.map_values(|c: Option<Seq<char>>| component_text(c))).len() == 0 {
                Ok(None)
            } else {
                Ok(Some(joined(prefix + kept_components(cs.map_values(|c: Option<Seq<char>>| component_text(c))), "."@)))
            },
        }
    }
}

/// `r` is the entry or failure `o` describes (the failure's path aside).
pub open spec fn matches_entry(r: Result<Option<ModuleId>, ResolveError>, o: Result<Option<Seq<char>>, (ResolveErrorKind, Seq<char>)>) -> bool {
    match o {
        Ok(None) => r matches Ok(None),
        Ok(Some(id)) => r matches Ok(Some(x)) && x@ == id,
        Err((kind, message)) => r matches Err(e) && e.kind == kind && e.code@ == kind_code(kind)
            && e.message@ == message && e.line is None && e.col is None,
    }
}

/// The views of texts.
pub open spec fn text_views(v: Seq<String>) -> Seq<Seq<char>> {
    v.map_values(|p: String| p@)
}

/// The optional views of optional lists of optional texts.
pub open spec fn optional_text_list(cs: Option<&Vec<Option<String>>>) -> Option<Seq<Option<Seq<char>>>> {
    match cs {
        Some(v) => Some(optional_texts(v@)),
        None => None,
    }
}

/// What scanning a folder makes of the file at `path`: exactly
/// `folder_entry_outcome`; a failure carries `path`.
pub fn folder_module_entry_from_parts(
    extension: Option<String>,
    relative_components: Option<&Vec<Option<String>>>,
    root_shown: &str,
    shown: &str,
    import_prefix: &Vec<String>,
    path: PathBuf,
) -> (r: Result<Option<ModuleId>, ResolveError>)
    ensures
        matches_entry(r, folder_entry_outcome(optional_text(extension), optional_text_list(relative_components),
            root_shown@, shown@, text_views(import_prefix@))),
        r matches Err(e) ==> e.path == Some(path),
{
    let sk = match &extension {
        Some(e) => text_eq(e.as_str(), "sk"),
        None => false,
    };
    if !sk {
        assert(optional_text(extension) != Some("sk"@));
        return Ok(None);
    }
    let components = match relative_components {
        None => {
            let mut msg = String::from_str("Failed to strip folder prefix ");
            msg.append(root_shown);
            msg.append(" from ");
            msg.append(shown);
            return Err(ResolveError::new(ResolveErrorKind::Io, msg, Some(path)));
        },
        Some(c) => c,
    };
    let ghost comps = optional_texts(components@);
    let mut texts: Vec<String> = Vec::new();
    let mut i: usize = 0;
    while i < components.len()
        invariant
            i <= components@.len(),
            comps == optional_texts(components@),
            optional_text(extension) == Some("sk"@),
            optional_text_list(relative_components) == Some(comps),
            texts@.len() == i,
            forall|j: int| 0 <= j < i ==> (#[trigger] comps[j]) is Some,
            forall|j: int| 0 <= j < i ==> (#[trigger] texts@[j])@ == component_text(comps[j]),
        decreases components@.len() - i,
    {
        match &components[i] {
            None => {
                assert(comps[i as int] is None);
                let mut msg = String::from_str("Non-UTF8 path component in ");
                msg.append(shown);
                return Err(ResolveError::new(ResolveErrorKind::NonUtf8Path, msg, Some(path)));
            },
            Some(t) => {
                texts.push(t.clone());
            },
        }
        i += 1;
    }
    proof {
        assert(!(exists|j: int| 0 <= j < comps.len() && #[trigger] comps[j] is None));
        assert(texts@.map_values(|p: String| p@) =~= comps.map_values(|c: Option<Seq<char>>| component_text(c)));
    }
    Ok(module_id_from_parts(import_prefix.as_slice(), texts.as_slice()))
}

/// What scanning the folder `folder_root` makes of the file at `path`
/// under the import prefix `import_prefix`. The extension, the path below
/// the folder and its components, and the shown paths come from std's
/// `Path`, whose reading of a path depends on the platform; the result is
/// what `folder_module_entry_from_parts` gives for them.
pub fn folder_module_entry(folder_root: &PathBuf, path: &PathBuf, import_prefix: &Vec<String>)
    -> (r: Result<Option<ModuleId>, ResolveError>)
    ensures
        exists|extension: Option<Seq<char>>, relative: Option<Seq<Option<Seq<char>>>>, root_shown: Seq<char>, shown: Seq<char>|
            matches_entry(r, #[trigger] folder_entry_outcome(extension, relative, root_shown, shown,
                text_views(import_prefix@))),
        r matches Err(e) ==> e.path == Some(*path),
{
    let extension = path_extension(path);
    let relative = match path_strip_prefix(path, folder_root) {
        Some(rel) => Some(path_components(&path_without_extension(&rel))),
        None => None,
    };
    let root_shown = path_shown(folder_root);
    let shown = path_shown(path);
    let ghost ext_view = optional_text(extension);
    let relative_ref: Option<&Vec<Option<String>>> = match &relative {
        Some(c) => Some(c),
        None => None,
    };
    let r = folder_module_entry_from_parts(extension, relative_ref, root_shown.as_str(), shown.as_str(), import_prefix, path_copy(path));
    assert(matches_entry(r, folder_entry_outcome(ext_view, optional_text_list(relative_ref), root_shown@, shown@,
        text_views(import_prefix@))));
    r
}

/// The id of the module whose file is at `path`, relative to the project
/// root. The extension, the components and the shown path come from std's
/// `Path`, whose reading of a path depends on the platform; the result is
/// what `module_id_from_path_parts` gives for them.
pub fn module_id_from_relative_path(path: &PathBuf) -> (r: Result<ModuleId, ResolveError>)
    ensures
        exists|extension: Option<Seq<char>>, components: Seq<Option<Seq<char>>>, shown: Seq<char>|
            matches_outcome(r, #[trigger] path_id_outcome(extension, components, shown)),
        r matches Err(e) ==> e.path == Some(*path),
{
    let extension = path_extension(path);
    let stem = path_without_extension(path);
    let components = path_components(&stem);
    let shown = path_shown(path);
    let ghost ext_view = optional_text(extension);
    let r = module_id_from_path_parts(extension, &components, shown.as_str(), path_copy(path));
    assert(matches_outcome(r, path_id_outcome(ext_view, optional_texts(components@), shown@)));
    r
}

/// The id of the module whose file has extension `extension`, whose path
/// without it has the components `components` (none where one is not
/// UTF-8), and which is shown as `shown`: exactly `path_id_outcome`; a
/// failure carries `path`.
pub fn module_id_from_path_parts(extension: Option<String>, components: &Vec<Option<String>>, shown: &str, path: PathBuf)
    -> (r: Result<ModuleId, ResolveError>)
    ensures
        matches_outcome(r, path_id_outcome(optional_text(extension), optional_texts(components@), shown@)),
        r matches Err(e) ==> e.path == Some(path),
{
    let ghost comps = optional_texts(components@);
    let sk = match &extension {
        Some(e) => text_eq(e.as_str(), "sk"),
        None => false,
    };
    if !sk {
        assert(optional_text(extension) != Some("sk"@));
        let mut msg = String::from_str("Expected .sk module path, got ");
        msg.append(shown);
        return Err(ResolveError::new(ResolveErrorKind::InvalidModulePath, msg, Some(path)));
    }
    let mut texts: Vec<String> = Vec::new();
    let mut i: usize = 0;
    while i < components.len()
        invariant
            i <= components@.len(),
            comps == optional_texts(components@),
            optional_text(extension) == Some("sk"@),
            texts@.len() == i,
            forall|j: int| 0 <= j < i ==> (#[trigger] comps[j]) is Some,
            forall|j: int| 0 <= j < i ==> (#[trigger] texts@[j])@ == component_text(comps[j]),
        decreases components@.len() - i,
    {
        match &components[i] {
            None => {
                assert(comps[i as int] is None);
                let mut msg = String::from_str("Non-UTF8 path component in ");
                msg.append(shown);
                return Err(ResolveError::new(ResolveErrorKind::NonUtf8Path, msg, Some(path)));
            },
            Some(t) => {
                texts.push(t.clone());
            },
        }
        i += 1;
    }
    let no_prefix: Vec<String> = Vec::new();
    proof {
        assert(!(exists|j: int| 0 <= j < comps.len() && #[trigger] comps[j] is None));
        assert(texts@.map_values(|p: String| p@) =~= comps.map_values(|c: Option<Seq<char>>| component_text(c)));
        assert(no_prefix@.map_values(|p: String| p@) + kept_components(texts@.map_values(|p: String| p@))
            =~= kept_components(comps.map_values(|c: Option<Seq<char>>| component_text(c))));
    }
    match module_id_from_parts(no_prefix.as_slice(), texts.as_slice()) {
        Some(id) => Ok(id),
        None => {
            let mut msg = String::from_str("Cannot derive module id from path ");
            msg.append(shown);
            Err(ResolveError::new(ResolveErrorKind::InvalidModulePath, msg, Some(path)))
        },
    }
}

/// The path components that name a module: the empty ones and `.` left out.
pub open spec fn kept_components(components: Seq<Seq<char>>) -> Seq<Seq<char>>
    decreases components.len(),
{
    if components.len() == 0 {
        seq![]
    } else {
        let c = components.last();
        let rest = kept_components(components.drop_last());
        if c.len() == 0 || c == "."@ { rest } else { rest.push(c) }
    }
}

/// The id of the module whose file has the path components `components`
/// (its extension taken off) under a folder imported as `prefix`: the
/// prefix and the kept components, joined by `.`; none where that leaves
/// nothing.
pub fn module_id_from_parts(prefix: &[String], components: &[String]) -> (r: Option<ModuleId>)
    ensures
        ({
            let parts = prefix@.map_values(|p: String| p@) + kept_components(components@.map_values(|p: String| p@));
            match r {
                Some(id) => parts.len() > 0 && id@ == joined(parts, "."@),
                None => parts.len() == 0,
            }
        }),
{
    let ghost comps = components@.map_values(|p: String| p@);
    let ghost pre = prefix@.map_values(|p: String| p@);
    let mut parts: Vec<String> = Vec::new();
    let mut i: usize = 0;
    while i < prefix.len()
        invariant
            i <= prefix@.len(),
            pre == prefix@.map_values(|p: String| p@),
            parts@.len() == i,
            forall|j: int| 0 <= j < i ==> (#[trigger] parts@[j])@ == pre[j],
        decreases prefix@.len() - i,
    {
        parts.push(prefix[i].clone());
        i += 1;
    }
    proof {
        assert(parts@.map_values(|p: String| p@) =~= pre + kept_components(comps.take(0)));
    }
    let mut k: usize = 0;
    while k < components.len()
        invariant
            k <= components@.len(),
            comps == components@.map_values(|p: String| p@),
            parts@.map_values(|p: String| p@) == pre + kept_components(comps.take(k as int)),
        decreases components@.len() - k,
    {
        let c = &components[k];
        proof {
            assert(comps.take(k + 1).drop_last() =~= comps.take(k as int));
            assert(comps.take(k + 1).last() == c@);
            reveal_strlit(".");
        }
        let ghost before = parts@;
        if !(c.as_str().unicode_len() == 0 || text_eq(c.as_str(), ".")) {
            parts.push(c.clone());
            proof {
                assert(parts@.map_values(|p: String| p@) =~= before.map_values(|p: String| p@).push(c@));
            }
        }
        k += 1;
    }
    proof {
        assert(comps.take(k as int) =~= comps);
    }
    if parts.is_empty() {
        None
    } else {
        Some(join_texts(parts.as_slice(), "."))
    }
}

} // verus!
