//! Local `.shader` files: recognising them and checking their source.

use vstd::prelude::*;
use crate::server::{ascii_lowercase, ascii_lowercase_chars, extension_chars, path_extension, PathStyle};
use crate::text::{chars_of, contains_chars, has_substring};

verus! {

/// A generated HTML bundle for a shader: the directory that holds it and
/// the file to open.
pub struct ShaderBundle {
    /// Directory holding the bundle.
    pub root_dir: String,
    /// Entry file inside it.
    pub entry_file: String,
}

/// A path names a shader file when its extension is `shader`, in any mix
/// of ASCII case.
pub open spec fn is_shader_path(path: Seq<char>, style: PathStyle) -> bool {
    match path_extension(path, style) {
        Some(e) => ascii_lowercase(e) == "shader"@,
        None => false,
    }
}

/// Whether `path` names a ShaderToy-style shader file.
pub fn is_shader_file(path: &str, style: PathStyle) -> (b: bool)
    ensures
        b == is_shader_path(path@, style),
{
    let p = chars_of(path);
    match extension_chars(p.as_slice(), style) {
        None => false,
        Some(e) => {
            let lower = ascii_lowercase_chars(e.as_slice());
            let word = chars_of("shader");
            let b = lower.len() == word.len() && crate::text::starts_with_chars(
                lower.as_slice(),
                word.as_slice(),
            );
            proof {
                if b {
                    assert(lower@ =~= word@);
                }
                if lower@ == word@ {
                    assert(lower@.take(word@.len() as int) =~= lower@);
                }
            }
            b
        },
    }
}

/// The message given for a shader source without `mainImage`.
pub open spec fn missing_main_image_text() -> Seq<char> {
    "Shader file must define a ShaderToy-style mainImage() function"@
}

/// Accepts a shader source when it mentions `mainImage`, the entry point
/// of ShaderToy-style shaders; otherwise gives the error message.
pub fn validate_shader_source(source: String) -> (r: Result<String, String>)
    ensures
        has_substring(source@, "mainImage"@) ==> r == Ok::<String, String>(source),
        !has_substring(source@, "mainImage"@) ==> (r matches Err(m) && m@
            == missing_main_image_text()),
{
    let s = chars_of(source.as_str());
    let word = chars_of("mainImage");
    if contains_chars(s.as_slice(), word.as_slice()) {
        Ok(source)
    } else {
        Err("Shader file must define a ShaderToy-style mainImage() function".to_owned())
    }
}

} // verus!
