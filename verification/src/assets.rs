//! Errors raised by assets, the capability contract an asset must satisfy,
//! and a minimal in-memory resource satisfying it.

use crate::paths::extension_of;
use crate::paths::path_extension;
use vstd::prelude::*;

verus! {

/// The kinds of failure an asset operation can report.
#[derive(Clone, Copy, Debug, Eq, Hash, Ord, PartialEq, PartialOrd, Structural)]
pub enum AssetErrorKind {
    LoadingFailed,
    NotLoaded,
    Poisoned,
    InvalidFileExtension,
    ReloadingFailed,
}

/// The mathematical content of an [`AssetError`]: its message, its kind and
/// the message of the underlying cause, if one was attached.
pub struct AssetErrorView {
    pub message: Seq<char>,
    pub kind: AssetErrorKind,
    pub source: Option<Seq<char>>,
}

/// An error raised while loading, reloading or destroying an asset.
///
/// The underlying cause, when there is one, is carried as its rendered
/// message so that callers can report it.
#[derive(Debug)]
pub struct AssetError {
    message: String,
    kind: AssetErrorKind,
    source: Option<String>,
}

impl View for AssetError {
    type V = AssetErrorView;

    closed spec fn view(&self) -> AssetErrorView {
        AssetErrorView {
            message: self.message@,
            kind: self.kind,
            source: match self.source {
                Some(s) => Some(s@),
                None => None,
            },
        }
    }
}

impl AssetError {
    pub fn new(message: &str, kind: AssetErrorKind, source: Option<String>) -> (e: AssetError)
        ensures
            e@.message == message@,
            e@.kind == kind,
            e@.source == (match source {
                Some(s) => Some(s@),
                None => None::<Seq<char>>,
            }),
    {
        AssetError { message: message.to_owned(), kind, source }
    }

    pub fn kind(&self) -> (k: AssetErrorKind)
        ensures
            k == self@.kind,
    {
        self.kind
    }

    pub fn message(&self) -> (m: String)
        ensures
            m@ == self@.message,
    {
        self.message.clone()
    }

    pub fn source_message(&self) -> (s: Option<String>)
        ensures
            self@.source is Some <==> s is Some,
            s matches Some(m) ==> self@.source == Some(m@),
    {
        match &self.source {
            Some(m) => Some(m.clone()),
            None => None,
        }
    }
}

/// The kinds of failure shader interpretation can report.
#[derive(Clone, Copy, Debug, Eq, Hash, Ord, PartialEq, PartialOrd, Structural)]
pub enum ShaderErrorKind {
    MalformedSource,
    CompilationError,
}

/// The mathematical content of a [`ShaderError`].
pub struct ShaderErrorView {
    pub message: Seq<char>,
    pub kind: ShaderErrorKind,
    pub source: Option<Seq<char>>,
}

/// An error raised while interpreting shader source text.
#[derive(Debug)]
pub struct ShaderError {
    message: String,
    kind: ShaderErrorKind,
    source: Option<String>,
}

impl View for ShaderError {
    type V = ShaderErrorView;

    closed spec fn view(&self) -> ShaderErrorView {
        ShaderErrorView {
            message: self.message@,
            kind: self.kind,
            source: match self.source {
                Some(s) => Some(s@),
                None => None,
            },
        }
    }
}

impl ShaderError {
    pub fn new(message: &str, kind: ShaderErrorKind, source: Option<String>) -> (e: ShaderError)
        ensures
            e@.message == message@,
            e@.kind == kind,
            e@.source == (match source {
                Some(s) => Some(s@),
                None => None::<Seq<char>>,
            }),
    {
        ShaderError { message: message.to_owned(), kind, source }
    }

    pub fn kind(&self) -> (k: ShaderErrorKind)
        ensures
            k == self@.kind,
    {
        self.kind
    }

    pub fn message(&self) -> (m: String)
        ensures
            m@ == self@.message,
    {
        self.message.clone()
    }
}

/// The capability contract a loadable resource must satisfy.
///
/// A resource is constructed from a logical id and a source file path,
/// can reload itself from that same path, releases its native state on
/// destroy, and reports its load state and source path. A failed reload
/// must leave the resource exactly as it was: no partial swap.
pub trait Asset: Sized {
    /// Whether the resource currently holds live native state: true exactly
    /// between a successful construct or reload and a destroy. A verified
    /// implementation gives this its own meaning; left alone it promises
    /// nothing.
    open spec fn loaded(&self) -> bool {
        arbitrary()
    }

    /// The logical id the resource was constructed under.
    open spec fn id(&self) -> Seq<char> {
        arbitrary()
    }

    /// The source path the resource loads from.
    open spec fn src_path(&self) -> Seq<char> {
        arbitrary()
    }

    /// Constructs the resource by reading and interpreting `file_path`.
    /// A failure is a read or interpretation failure, `LoadingFailed`, or
    /// an unrecognized or missing file-type marker, `InvalidFileExtension`.
    fn new(id: &str, file_path: &str) -> (r: Result<Self, AssetError>)
        ensures
            r matches Ok(a) ==> a.loaded() && a.id() == id@ && a.src_path() == file_path@,
            r matches Err(e) ==> e@.kind == AssetErrorKind::LoadingFailed || e@.kind
                == AssetErrorKind::InvalidFileExtension,
    ;

    /// Re-reads the source path and replaces the native state. Fails with
    /// `NotLoaded` before a successful construct; on any failure the
    /// resource is left unchanged.
    fn reload(&mut self) -> (r: Result<(), AssetError>)
        ensures
            r matches Ok(_) ==> final(self).loaded() && final(self).id() == old(self).id()
                && final(self).src_path() == old(self).src_path(),
            r matches Err(_) ==> *final(self) == *old(self),
            !old(self).loaded() ==> (r matches Err(e) && e@.kind == AssetErrorKind::NotLoaded),
    ;

    /// Releases the native state.
    fn destroy(&mut self) -> (r: Result<(), AssetError>)
        ensures
            r matches Ok(_) ==> !final(self).loaded(),
    ;

    /// Reports the load state.
    fn is_loaded(&self) -> (b: bool)
        ensures
            b == self.loaded(),
    ;

    /// Reports the source path the resource was constructed from.
    fn get_src_file_path(&self) -> (p: String)
        ensures
            p@ == self.src_path(),
    ;
}

/// The kind of shader a source file holds, as its extension declares it.
#[derive(Clone, Copy, Debug, Eq, Hash, PartialEq, Structural)]
pub enum ShaderKind {
    Vertex,
    Fragment,
}

/// The shader kind a path's extension selects: `.vert` is a vertex shader
/// and `.frag` a fragment shader; any other extension, and a path without
/// one, selects none.
pub open spec fn shader_kind_of(path: Seq<char>) -> Option<ShaderKind> {
    if extension_of(path) == Some(seq!['v', 'e', 'r', 't']) {
        Some(ShaderKind::Vertex)
    } else if extension_of(path) == Some(seq!['f', 'r', 'a', 'g']) {
        Some(ShaderKind::Fragment)
    } else {
        None
    }
}

/// Classifies a shader source path by its extension, refusing paths whose
/// extension is missing or selects no shader kind.
pub fn shader_kind_for_path(path: &str) -> (r: Result<ShaderKind, AssetError>)
    ensures
        match shader_kind_of(path@) {
            Some(k) => r matches Ok(got) && got == k,
            None => r matches Err(e) && e@.kind == AssetErrorKind::InvalidFileExtension,
        },
{
    proof {
        reveal_strlit("vert");
        reveal_strlit("frag");
        assert("vert"@ =~= seq!['v', 'e', 'r', 't']);
        assert("frag"@ =~= seq!['f', 'r', 'a', 'g']);
    }
    match path_extension(path) {
        Some(ext) => {
            if ext == "vert".to_owned() {
                Ok(ShaderKind::Vertex)
            } else if ext == "frag".to_owned() {
                Ok(ShaderKind::Fragment)
            } else {
                Err(
                    AssetError::new(
                        "shader source file extension is neither \".vert\" nor \".frag\"",
                        AssetErrorKind::InvalidFileExtension,
                        None,
                    ),
                )
            }
        },
        None => Err(
            AssetError::new(
                "shader source file does not have a valid file extension",
                AssetErrorKind::InvalidFileExtension,
                None,
            ),
        ),
    }
}

/// A minimal in-memory resource satisfying the [`Asset`] capability.
///
/// Its generation counter stands in for the native identifier a real
/// resource would swap on a successful reload, and it can be told to fail
/// its reloads, so that failure handling can be exercised. Construction
/// accepts any source path that carries a file extension.
pub struct SimpleAsset {
    id: String,
    src_file_path: String,
    is_loaded: bool,
    generation: u64,
    fail_reloads: bool,
}

impl SimpleAsset {
    /// The generation counter: how many successful loads and reloads the
    /// resource has seen.
    pub closed spec fn generation_spec(&self) -> u64 {
        self.generation
    }

    /// Whether the resource is set to fail its reloads.
    pub closed spec fn fails_reloads(&self) -> bool {
        self.fail_reloads
    }

    pub fn generation(&self) -> (g: u64)
        ensures
            g == self.generation_spec(),
    {
        self.generation
    }

    /// Tells the resource to fail (or again allow) reloads; nothing else
    /// about it changes.
    pub fn set_fail_reloads(&mut self, fail: bool)
        ensures
            final(self).fails_reloads() == fail,
            final(self).loaded() == old(self).loaded(),
            final(self).id() == old(self).id(),
            final(self).src_path() == old(self).src_path(),
            final(self).generation_spec() == old(self).generation_spec(),
    {
        self.fail_reloads = fail;
    }
}

impl Asset for SimpleAsset {
    closed spec fn loaded(&self) -> bool {
        self.is_loaded
    }

    closed spec fn id(&self) -> Seq<char> {
        self.id@
    }

    closed spec fn src_path(&self) -> Seq<char> {
        self.src_file_path@
    }

    fn new(id: &str, file_path: &str) -> (r: Result<Self, AssetError>)
        ensures
            r matches Ok(a) ==> a.generation_spec() == 1 && !a.fails_reloads(),
            r is Ok <==> extension_of(file_path@) is Some,
            r matches Err(e) ==> e@.kind == AssetErrorKind::InvalidFileExtension,
    {
        match path_extension(file_path) {
            Some(_) => Ok(
                SimpleAsset {
                    id: id.to_owned(),
                    src_file_path: file_path.to_owned(),
                    is_loaded: true,
                    generation: 1,
                    fail_reloads: false,
                },
            ),
            None => Err(
                AssetError::new(
                    "asset source file does not have a valid file extension",
                    AssetErrorKind::InvalidFileExtension,
                    None,
                ),
            ),
        }
    }

    fn reload(&mut self) -> (r: Result<(), AssetError>)
        ensures
            r matches Ok(_) ==> final(self).generation_spec() == (if old(self).generation_spec()
                < u64::MAX {
                old(self).generation_spec() + 1
            } else {
                old(self).generation_spec() as int
            }),
            old(self).loaded() && old(self).fails_reloads() ==> (r matches Err(e) && e@.kind
                == AssetErrorKind::ReloadingFailed),
            old(self).loaded() && !old(self).fails_reloads() ==> r is Ok,
    {
        if !self.is_loaded {
            return Err(
                AssetError::new("asset not yet loaded", AssetErrorKind::NotLoaded, None),
            );
        }
        if self.fail_reloads {
            return Err(
                AssetError::new(
                    "unable to hot-reload asset",
                    AssetErrorKind::ReloadingFailed,
                    None,
                ),
            );
        }
        if self.generation < u64::MAX {
            self.generation = self.generation + 1;
        }
        Ok(())
    }

    fn destroy(&mut self) -> (r: Result<(), AssetError>)
        ensures
            r is Ok,
            final(self).generation_spec() == old(self).generation_spec(),
    {
        self.is_loaded = false;
        Ok(())
    }

    fn is_loaded(&self) -> (b: bool) {
        self.is_loaded
    }

    fn get_src_file_path(&self) -> (p: String) {
        self.src_file_path.clone()
    }
}

} // verus!
