//! Image resources: data URIs, asset files and URI prefixes.

use base64::Engine as _;
use vstd::prelude::*;

use crate::text::{owned, push_char, push_str};

verus! {

/// How image resources are referenced from exported documents.
#[derive(Debug, Clone)]
pub enum ResourcePolicy {
    /// Embed each image as a self-contained `data:` URI.
    DataUri,
    /// Reference each image as a file under `dir`, returned as an asset.
    AssetDir { dir: String },
    /// Reference each image as `prefix` followed by its file name, returned as an asset.
    UriPrefix { prefix: String },
}

/// Model of a [`ResourcePolicy`].
pub enum PolicyModel {
    DataUri,
    AssetDir(Seq<char>),
    UriPrefix(Seq<char>),
}

impl View for ResourcePolicy {
    type V = PolicyModel;

    open spec fn view(&self) -> PolicyModel {
        match self {
            ResourcePolicy::DataUri => PolicyModel::DataUri,
            ResourcePolicy::AssetDir { dir } => PolicyModel::AssetDir(dir@),
            ResourcePolicy::UriPrefix { prefix } => PolicyModel::UriPrefix(prefix@),
        }
    }
}

impl ResourcePolicy {
    /// Write images as assets under `dir`.
    pub fn asset_dir(dir: &str) -> (p: ResourcePolicy)
        ensures
            p@ == PolicyModel::AssetDir(dir@),
    {
        ResourcePolicy::AssetDir { dir: owned(dir) }
    }

    /// Reference images as `prefix` followed by the asset file name.
    pub fn uri_prefix(prefix: &str) -> (p: ResourcePolicy)
        ensures
            p@ == PolicyModel::UriPrefix(prefix@),
    {
        ResourcePolicy::UriPrefix { prefix: owned(prefix) }
    }
}

/// A binary file that an export references and the caller must write.
#[derive(Debug, Clone, PartialEq, Eq)]
pub struct ResourceAsset {
    /// File name relative to the asset directory.
    pub path: String,
    pub mime: String,
    pub data: Vec<u8>,
}

/// Model of a [`ResourceAsset`].
pub struct AssetModel {
    pub path: Seq<char>,
    pub mime: Seq<char>,
    pub data: Seq<u8>,
}

impl View for ResourceAsset {
    type V = AssetModel;

    open spec fn view(&self) -> AssetModel {
        AssetModel { path: self.path@, mime: self.mime@, data: self.data@ }
    }
}

/// Models of a sequence of assets.
pub open spec fn assets_model(s: Seq<ResourceAsset>) -> Seq<AssetModel> {
    s.map_values(|a: ResourceAsset| a@)
}

/// How one image is referenced, and the asset to write if any.
#[derive(Debug, Clone)]
pub struct ResolvedResource {
    pub uri: String,
    pub mime: String,
    pub asset: Option<ResourceAsset>,
}

/// Model of a [`ResolvedResource`].
pub struct ResolvedModel {
    pub uri: Seq<char>,
    pub mime: Seq<char>,
    pub asset: Option<AssetModel>,
}

impl View for ResolvedResource {
    type V = ResolvedModel;

    open spec fn view(&self) -> ResolvedModel {
        ResolvedModel {
            uri: self.uri@,
            mime: self.mime@,
            asset: match self.asset {
                Some(a) => Some(a@),
                None => None,
            },
        }
    }
}

/// Standard (padded) base64 text of `data`, as the `base64` crate's
/// `general_purpose::STANDARD` engine encodes it.
pub uninterp spec fn spec_base64_standard(data: Seq<u8>) -> Seq<char>;

/// Whether the padded base64 length of `n` bytes fits in `usize`.
pub open spec fn base64_fits(n: nat) -> bool {
    n / 3 * 4 + (if n % 3 == 0 {
        0int
    } else {
        4int
    }) <= usize::MAX
}

/// `base64::engine::general_purpose::STANDARD.encode`: the padded standard
/// base64 text of `data`. The crate panics when the encoded length overflows
/// `usize`, which `requires` leaves out.
#[verifier::external_body]
fn base64_standard_encode(data: &[u8]) -> (s: String)
    requires
        base64_fits(data@.len()),
    ensures
        s@ == spec_base64_standard(data@),
{
    base64::engine::general_purpose::STANDARD.encode(data)
}

/// Standard base64 text of `data`.
pub fn encode_base64(data: &[u8]) -> (s: String)
    requires
        base64_fits(data@.len()),
    ensures
        s@ == spec_base64_standard(data@),
{
    base64_standard_encode(data)
}

/// The `data:` URI of an image of type `mime` whose bytes are `data_base64`
/// in base64.
pub fn data_uri(mime: &str, data_base64: &str) -> (uri: String)
    ensures
        uri@ == "data:"@ + mime@ + ";base64,"@ + data_base64@,
{
    let mut uri = owned("data:");
    push_str(&mut uri, mime);
    push_str(&mut uri, ";base64,");
    push_str(&mut uri, data_base64);
    uri
}

/// Whether two string slices hold the same characters.
fn str_eq(a: &str, b: &str) -> (r: bool)
    ensures
        r == (a@ == b@),
{
    let x = crate::text::chars_of(a);
    let y = crate::text::chars_of(b);
    if x.len() != y.len() {
        return false;
    }
    let mut i: usize = 0;
    while i < x.len()
        invariant
            i <= x@.len(),
            x@ == a@,
            y@ == b@,
            x@.len() == y@.len(),
            forall|j: int| 0 <= j < i ==> x@[j] == y@[j],
        decreases x.len() - i,
    {
        if x[i] != y[i] {
            return false;
        }
        i += 1;
    }
    assert(x@ =~= y@);
    true
}

/// MIME type of an image file extension.
pub open spec fn mime_of(ext: Seq<char>) -> Seq<char> {
    if ext == "png"@ {
        "image/png"@
    } else if ext == "jpg"@ || ext == "jpeg"@ {
        "image/jpeg"@
    } else if ext == "gif"@ {
        "image/gif"@
    } else if ext == "bmp"@ {
        "image/bmp"@
    } else if ext == "tif"@ || ext == "tiff"@ {
        "image/tiff"@
    } else if ext == "wmf"@ {
        "image/wmf"@
    } else if ext == "emf"@ {
        "image/emf"@
    } else if ext == "svg"@ {
        "image/svg+xml"@
    } else {
        "application/octet-stream"@
    }
}

/// Executable form of [`mime_of`].
pub fn mime_for_extension(ext: &str) -> (m: String)
    ensures
        m@ == mime_of(ext@),
{
    if str_eq(ext, "png") {
        owned("image/png")
    } else if str_eq(ext, "jpg") || str_eq(ext, "jpeg") {
        owned("image/jpeg")
    } else if str_eq(ext, "gif") {
        owned("image/gif")
    } else if str_eq(ext, "bmp") {
        owned("image/bmp")
    } else if str_eq(ext, "tif") || str_eq(ext, "tiff") {
        owned("image/tiff")
    } else if str_eq(ext, "wmf") {
        owned("image/wmf")
    } else if str_eq(ext, "emf") {
        owned("image/emf")
    } else if str_eq(ext, "svg") {
        owned("image/svg+xml")
    } else {
        owned("application/octet-stream")
    }
}

/// A block location such as `section[0]/block[1]` turned into a file stem
/// such as `section-0-block-1`.
pub open spec fn loc_slug(loc: Seq<char>) -> Seq<char>
    decreases loc.len(),
{
    if loc.len() == 0 {
        Seq::empty()
    } else {
        let c = loc.last();
        loc_slug(loc.drop_last()) + if c == '[' || c == '/' {
            seq!['-']
        } else if c == ']' {
            Seq::empty()
        } else {
            seq![c]
        }
    }
}

/// File name of the asset for the image at `loc`.
pub open spec fn asset_name(loc: Seq<char>, ext: Seq<char>) -> Seq<char> {
    loc_slug(loc) + seq!['.'] + ext
}

/// `name` placed under the directory `dir`.
pub open spec fn join_dir(dir: Seq<char>, name: Seq<char>) -> Seq<char> {
    if dir.len() == 0 {
        name
    } else if dir.last() == '/' {
        dir + name
    } else {
        dir + seq!['/'] + name
    }
}

/// How the image at `loc` with extension `ext` and bytes `data` is referenced.
pub open spec fn resolve_spec(
    policy: PolicyModel,
    loc: Seq<char>,
    ext: Seq<char>,
    data: Seq<u8>,
) -> ResolvedModel {
    let mime = mime_of(ext);
    let name = asset_name(loc, ext);
    match policy {
        PolicyModel::DataUri => ResolvedModel {
            uri: "data:"@ + mime + ";base64,"@ + spec_base64_standard(data),
            mime,
            asset: None,
        },
        PolicyModel::AssetDir(dir) => ResolvedModel {
            uri: join_dir(dir, name),
            mime,
            asset: Some(AssetModel { path: name, mime, data }),
        },
        PolicyModel::UriPrefix(prefix) => ResolvedModel {
            uri: prefix + name,
            mime,
            asset: Some(AssetModel { path: name, mime, data }),
        },
    }
}

/// Asset file name for the image at `loc`.
pub fn asset_file_name(loc: &str, ext: &str) -> (name: String)
    ensures
        name@ == asset_name(loc@, ext@),
{
    let cs = crate::text::chars_of(loc);
    let mut out = String::new();
    let mut i: usize = 0;
    while i < cs.len()
        invariant
            i <= cs@.len(),
            cs@ == loc@,
            out@ == loc_slug(cs@.take(i as int)),
        decreases cs.len() - i,
    {
        let c = cs[i];
        assert(cs@.take(i + 1).drop_last() == cs@.take(i as int));
        if c == '[' || c == '/' {
            push_char(&mut out, '-');
        } else if c != ']' {
            push_char(&mut out, c);
        }
        i += 1;
        assert(out@ =~= loc_slug(cs@.take(i as int)));
    }
    assert(cs@.take(cs@.len() as int) == cs@);
    push_char(&mut out, '.');
    push_str(&mut out, ext);
    out
}

/// Resolves how the image at `loc` is referenced under `policy`.
pub fn resolve_resource(
    policy: &ResourcePolicy,
    loc: &str,
    extension: &str,
    data: &[u8],
) -> (r: ResolvedResource)
    requires
        policy@ is DataUri ==> base64_fits(data@.len()),
    ensures
        r@ == resolve_spec(policy@, loc@, extension@, data@),
{
    let mime = mime_for_extension(extension);
    match policy {
        ResourcePolicy::DataUri => {
            let b64 = encode_base64(data);
            let uri = data_uri(mime.as_str(), b64.as_str());
            let r = ResolvedResource { uri, mime, asset: None };
            assert(r@.uri == resolve_spec(policy@, loc@, extension@, data@).uri);
            r
        },
        ResourcePolicy::AssetDir { dir } => {
            let name = asset_file_name(loc, extension);
            let dcs = crate::text::chars_of(dir.as_str());
            let mut uri = String::new();
            if dcs.len() == 0 {
                push_str(&mut uri, name.as_str());
            } else if dcs[dcs.len() - 1] == '/' {
                push_str(&mut uri, dir.as_str());
                push_str(&mut uri, name.as_str());
            } else {
                push_str(&mut uri, dir.as_str());
                push_char(&mut uri, '/');
                push_str(&mut uri, name.as_str());
            }
            let asset = ResourceAsset { path: name.clone(), mime: mime.clone(), data: vstd::slice::slice_to_vec(data) };
            assert(uri@ == join_dir(dir@, name@)) by {
                if dcs@.len() > 0 {
                    assert(dcs@.last() == dir@.last());
                }
            }
            let r = ResolvedResource { uri, mime, asset: Some(asset) };
            assert(r@ == resolve_spec(policy@, loc@, extension@, data@));
            r
        },
        ResourcePolicy::UriPrefix { prefix } => {
            let name = asset_file_name(loc, extension);
            let mut uri = prefix.clone();
            push_str(&mut uri, name.as_str());
            let asset = ResourceAsset { path: name.clone(), mime: mime.clone(), data: vstd::slice::slice_to_vec(data) };
            let r = ResolvedResource { uri, mime, asset: Some(asset) };
            assert(r@ == resolve_spec(policy@, loc@, extension@, data@));
            r
        },
    }
}

} // verus!
