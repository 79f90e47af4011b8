//! Wrapping of ShaderToy-style GLSL sources into complete GLSL 450
//! fragment shaders, and the fixed WGSL shaders of the renderer.

use vstd::prelude::*;
use crate::text::{
    append_str, chars_of, has_substring, occurs_at, replace_all, replace_chars, starts_with,
    string_of,
};

verus! {

/// Result of wrapping a ShaderToy GLSL source in a complete fragment shader.
pub struct WrappedShader {
    /// Complete GLSL 450 source ready for compilation
    pub source: String,
    /// Number of lines added before the user's shader code (for error mapping)
    pub wrapper_line_offset: usize,
}

/// WGSL vertex shader for a fullscreen quad (6 vertices, two triangles, no vertex buffer).
///
/// Uses `vertex_index` to compute positions for two triangles covering the viewport.
/// Triangle 1: (-1,-1), (1,-1), (1,1)
/// Triangle 2: (-1,-1), (1,1), (-1,1)
pub const FULLSCREEN_QUAD_WGSL: &'static str = r#"
struct VertexOutput {
    @builtin(position) position: vec4<f32>,
};

@vertex
fn vs_main(@builtin(vertex_index) vertex_index: u32) -> VertexOutput {
    // 6 vertices forming 2 triangles:
    //   0: (-1,-1)  1: (1,-1)  2: (1,1)
    //   3: (-1,-1)  4: (1, 1)  5: (-1,1)
    var positions = array<vec2<f32>, 6>(
        vec2<f32>(-1.0, -1.0),
        vec2<f32>( 1.0, -1.0),
        vec2<f32>( 1.0,  1.0),
        vec2<f32>(-1.0, -1.0),
        vec2<f32>( 1.0,  1.0),
        vec2<f32>(-1.0,  1.0),
    );
    var out: VertexOutput;
    out.position = vec4<f32>(positions[vertex_index], 0.0, 1.0);
    return out;
}
"#;

/// WGSL blit shader that samples an offscreen texture and draws it fullscreen.
///
/// Used when `--scale` < 1.0 to upscale the lower-resolution render target
/// to the full window size with linear filtering.
pub const BLIT_SHADER_WGSL: &'static str = r#"
struct VertexOutput {
    @builtin(position) position: vec4<f32>,
    @location(0) tex_coord: vec2<f32>,
};

@group(0) @binding(0) var t_source: texture_2d<f32>;
@group(0) @binding(1) var s_source: sampler;

@vertex
fn vs_main(@builtin(vertex_index) vertex_index: u32) -> VertexOutput {
    var positions = array<vec2<f32>, 6>(
        vec2<f32>(-1.0, -1.0),
        vec2<f32>( 1.0, -1.0),
        vec2<f32>( 1.0,  1.0),
        vec2<f32>(-1.0, -1.0),
        vec2<f32>( 1.0,  1.0),
        vec2<f32>(-1.0,  1.0),
    );
    var out: VertexOutput;
    let pos = positions[vertex_index];
    out.position = vec4<f32>(pos, 0.0, 1.0);
    out.tex_coord = vec2<f32>((pos.x + 1.0) / 2.0, (1.0 - pos.y) / 2.0);
    return out;
}

@fragment
fn fs_main(in: VertexOutput) -> @location(0) vec4<f32> {
    return textureSample(t_source, s_source, in.tex_coord);
}
"#;

/// The text put before the user's code: the GLSL version, the uniform block
/// laid out like the uniforms the renderer uploads (std140), and the global
/// that stands in for `gl_FragCoord`.
pub const WRAPPER_PREAMBLE: &'static str = r#"#version 450
precision highp float;

layout(set = 0, binding = 0) uniform Uniforms {
    vec3 iResolution;
    float _pad0;
    float iTime;
    float iTimeDelta;
    int iFrame;
    float iFrameRate;
    vec4 iMouse;
    vec4 iDate;
};

vec4 _ww_FragCoord;

"#;

/// The text put after the user's code: the output and a `main` that sets
/// the y-flipped fragment coordinate and calls `mainImage`.
pub const WRAPPER_SUFFIX: &'static str = r#"

layout(location = 0) out vec4 outColor;

void main() {
    _ww_FragCoord = vec4(gl_FragCoord.x, iResolution.y - gl_FragCoord.y, gl_FragCoord.z, gl_FragCoord.w);
    mainImage(outColor, _ww_FragCoord.xy);
}
"#;

/// The number of line ends in `s`.
pub open spec fn newline_count(s: Seq<char>) -> nat
    decreases s.len(),
{
    if s.len() == 0 {
        0
    } else if s.last() == '\n' {
        newline_count(s.drop_last()) + 1
    } else {
        newline_count(s.drop_last())
    }
}

/// The number of lines of a text as `str::lines` counts them: every line
/// end closes a line, and a last line without a line end counts too.
pub open spec fn line_count(s: Seq<char>) -> nat {
    if s.len() > 0 && s.last() != '\n' {
        newline_count(s) + 1
    } else {
        newline_count(s)
    }
}

/// The fixups made to user code before wrapping: the `const in` parameter
/// qualifier becomes `in`, and `gl_FragCoord` becomes `_ww_FragCoord`.
pub open spec fn preprocess_spec(source: Seq<char>) -> Seq<char> {
    replace_all(replace_all(source, "const in "@, "in "@), "gl_FragCoord"@, "_ww_FragCoord"@)
}

proof fn lemma_frag_words()
    ensures
        "gl_FragCoord"@ == seq!['g', 'l', '_', 'F', 'r', 'a', 'g', 'C', 'o', 'o', 'r', 'd'],
        "_ww_FragCoord"@ == seq!['_', 'w', 'w', '_', 'F', 'r', 'a', 'g', 'C', 'o', 'o', 'r', 'd'],
{
    reveal_strlit("gl_FragCoord");
    reveal_strlit("_ww_FragCoord");
    assert("gl_FragCoord"@ =~= seq!['g', 'l', '_', 'F', 'r', 'a', 'g', 'C', 'o', 'o', 'r', 'd']);
    assert("_ww_FragCoord"@ =~= seq!['_', 'w', 'w', '_', 'F', 'r', 'a', 'g', 'C', 'o', 'o', 'r', 'd']);
}

/// What the replacement output starts with, the input started with too, as
/// long as no replacement can start inside that prefix (the replacement
/// starts with `_w`).
proof fn lemma_prefix_kept(t: Seq<char>, q: Seq<char>)
    requires
        replace_all(t, "gl_FragCoord"@, "_ww_FragCoord"@).len() >= q.len(),
        replace_all(t, "gl_FragCoord"@, "_ww_FragCoord"@).take(q.len() as int) == q,
        forall|i: int| 0 <= i < q.len() ==> #[trigger] q[i] != '_' || (i + 1 < q.len() && q[i + 1] != 'w'),
    ensures
        t.len() >= q.len(),
        t.take(q.len() as int) == q,
    decreases q.len(),
{
    lemma_frag_words();
    let from = "gl_FragCoord"@;
    let to = "_ww_FragCoord"@;
    let o = replace_all(t, from, to);
    if q.len() > 0 {
        assert(t.len() > 0);
        if starts_with(t, from) {
            assert(o == to + replace_all(t.skip(12), from, to));
            assert(q[0] == o[0]);
            if q.len() > 1 {
                assert(q[1] == o[1]);
            }
            assert(false);
        } else {
            let rest = replace_all(t.drop_first(), from, to);
            assert(o == seq![t[0]] + rest);
            let q2 = q.drop_first();
            assert(rest.take(q2.len() as int) =~= q2) by {
                assert forall|i: int| 0 <= i < q2.len() implies rest[i] == q2[i] by {
                    assert(o[i + 1] == rest[i]);
                    assert(o.take(q.len() as int)[i + 1] == q[i + 1]);
                }
            }
            assert forall|i: int| 0 <= i < q2.len() implies #[trigger] q2[i] != '_' || (i + 1 < q2.len()
                && q2[i + 1] != 'w') by {
                assert(q2[i] == q[i + 1]);
                if i + 2 < q.len() {
                    assert(q2[i + 1] == q[i + 2]);
                }
            }
            lemma_prefix_kept(t.drop_first(), q2);
            assert(q[0] == o.take(q.len() as int)[0]);
            assert(t.take(q.len() as int) =~= q) by {
                assert forall|i: int| 0 <= i < q.len() implies t[i] == q[i] by {
                    if i > 0 {
                        assert(t.drop_first().take(q2.len() as int)[i - 1] == q2[i - 1]);
                    }
                }
            }
        }
    }
}

/// After the fixups, user code never mentions `gl_FragCoord`: every
/// occurrence, not only the first, becomes `_ww_FragCoord`.
pub proof fn lemma_no_frag_coord_left(source: Seq<char>)
    ensures
        !has_substring(preprocess_spec(source), "gl_FragCoord"@),
{
    lemma_no_frag_coord(replace_all(source, "const in "@, "in "@));
}

/// User code that uses neither `const in ` nor `gl_FragCoord` is kept as
/// it is.
pub proof fn lemma_preprocess_plain(source: Seq<char>)
    requires
        !has_substring(source, "const in "@),
        !has_substring(source, "gl_FragCoord"@),
    ensures
        preprocess_spec(source) == source,
{
    reveal_strlit("const in ");
    lemma_frag_words();
    crate::text::lemma_replace_all_absent(source, "const in "@, "in "@);
    crate::text::lemma_replace_all_absent(source, "gl_FragCoord"@, "_ww_FragCoord"@);
}

proof fn lemma_no_frag_coord(a: Seq<char>)
    ensures
        !has_substring(replace_all(a, "gl_FragCoord"@, "_ww_FragCoord"@), "gl_FragCoord"@),
    decreases a.len(),
{
    lemma_frag_words();
    let from = "gl_FragCoord"@;
    let to = "_ww_FragCoord"@;
    let o = replace_all(a, from, to);
    if a.len() == 0 {
        assert(o.len() == 0);
        assert forall|j: int| !occurs_at(o, from, j) by {}
    } else if starts_with(a, from) {
        let rest = replace_all(a.skip(12), from, to);
        lemma_no_frag_coord(a.skip(12));
        assert(o == to + rest);
        assert forall|j: int| !occurs_at(o, from, j) by {
            if occurs_at(o, from, j) {
                let w = o.subrange(j, j + 12);
                if j >= 13 {
                    assert(rest.subrange(j - 13, j - 13 + 12) =~= w);
                    assert(occurs_at(rest, from, j - 13));
                } else {
                    assert(w[0] == o[j]);
                    assert(w[1] == o[j + 1]);
                    assert(o[j] == to[j]);
                    assert(o[j + 1] == to[j + 1]);
                }
            }
        }
    } else {
        let rest = replace_all(a.drop_first(), from, to);
        lemma_no_frag_coord(a.drop_first());
        assert(o == seq![a[0]] + rest);
        assert forall|j: int| !occurs_at(o, from, j) by {
            if occurs_at(o, from, j) {
                let w = o.subrange(j, j + 12);
                if j >= 1 {
                    assert(rest.subrange(j - 1, j - 1 + 12) =~= w);
                    assert(occurs_at(rest, from, j - 1));
                } else {
                    let q = from.drop_first();
                    assert(rest.take(11) =~= q) by {
                        assert forall|i: int| 0 <= i < 11 implies rest[i] == q[i] by {
                            assert(w[i + 1] == o[i + 1]);
                        }
                    }
                    lemma_prefix_kept(a.drop_first(), q);
                    assert(w[0] == o[0]);
                    assert(a.take(12) =~= from) by {
                        assert forall|i: int| 0 <= i < 12 implies a[i] == from[i] by {
                            if i > 0 {
                                assert(a.drop_first().take(11)[i - 1] == q[i - 1]);
                            }
                        }
                    }
                }
            }
        }
    }
}

/// Counts lines as `str::lines` does.
pub fn count_lines(s: &str) -> (n: usize)
    ensures
        n == line_count(s@),
{
    let v = chars_of(s);
    let mut n: usize = 0;
    let mut i: usize = 0;
    while i < v.len()
        invariant
            i <= v.len(),
            n == newline_count(v@.take(i as int)),
            n <= i,
            i > 0 && v@[i - 1] != '\n' ==> n < i,
        decreases v.len() - i,
    {
        assert(v@.take(i + 1).drop_last() =~= v@.take(i as int));
        if v[i] == '\n' {
            n = n + 1;
        }
        i = i + 1;
    }
    assert(v@.take(v.len() as int) =~= v@);
    if v.len() > 0 && v[v.len() - 1] != '\n' {
        n + 1
    } else {
        n
    }
}

/// Makes the fixups of [`preprocess_spec`].
pub fn preprocess_shadertoy_glsl(source: &str) -> (r: String)
    ensures
        r@ == preprocess_spec(source@),
{
    let s = chars_of(source);
    let from1 = chars_of("const in ");
    let to1 = chars_of("in ");
    let from2 = chars_of("gl_FragCoord");
    let to2 = chars_of("_ww_FragCoord");
    proof {
        reveal_strlit("const in ");
        reveal_strlit("gl_FragCoord");
    }
    let a = replace_chars(s.as_slice(), from1.as_slice(), to1.as_slice());
    let b = replace_chars(a.as_slice(), from2.as_slice(), to2.as_slice());
    string_of(b.as_slice())
}

/// Wraps a ShaderToy GLSL fragment shader in a complete `#version 450`
/// program: the preamble, the fixed-up user code, then the suffix.  The
/// line offset is the number of lines of the preamble.
pub fn wrap_shadertoy_glsl(user_source: &str) -> (w: WrappedShader)
    ensures
        w.source@ == WRAPPER_PREAMBLE@ + preprocess_spec(user_source@) + WRAPPER_SUFFIX@,
        w.wrapper_line_offset == line_count(WRAPPER_PREAMBLE@),
{
    let preprocessed = preprocess_shadertoy_glsl(user_source);
    let wrapper_line_offset = count_lines(WRAPPER_PREAMBLE);
    let mut v: Vec<char> = Vec::new();
    append_str(&mut v, WRAPPER_PREAMBLE);
    append_str(&mut v, preprocessed.as_str());
    append_str(&mut v, WRAPPER_SUFFIX);
    WrappedShader { source: string_of(v.as_slice()), wrapper_line_offset }
}

/// The user's line for a line number reported for the wrapped shader:
/// lines after the preamble shift down by its length, lines inside it map
/// to 0.
pub open spec fn user_line(error_line: int, wrapper_line_offset: int) -> int {
    if error_line > wrapper_line_offset {
        error_line - wrapper_line_offset
    } else {
        0
    }
}

/// Maps a line number reported for the wrapped shader back to the user's
/// source (see [`user_line`]).
pub fn map_error_line(error_line: usize, wrapper_line_offset: usize) -> (r: usize)
    ensures
        r == user_line(error_line as int, wrapper_line_offset as int),
{
    if error_line > wrapper_line_offset {
        error_line - wrapper_line_offset
    } else {
        0
    }
}

/// Mapping back the line number of a user line, counted after the
/// preamble, gives that user line.
pub proof fn lemma_map_error_line_inverse(line: int, offset: int)
    requires
        line > 0,
    ensures
        user_line(line + offset, offset) == line,
{
}

} // verus!
