use webwallpaper::renderer::errors::{PipelineError, RendererError};
use webwallpaper::renderer::shader::{
    count_lines, map_error_line, preprocess_shadertoy_glsl, wrap_shadertoy_glsl,
    BLIT_SHADER_WGSL, FULLSCREEN_QUAD_WGSL, WRAPPER_PREAMBLE, WRAPPER_SUFFIX,
};
use webwallpaper::server::PathStyle;
use webwallpaper::shader::{is_shader_file, validate_shader_source};

#[test]
fn test_wrap_shadertoy_glsl() {
    let user_code = "void mainImage(out vec4 fragColor, in vec2 fragCoord) {\n    fragColor = vec4(1.0);\n}";
    let wrapped = wrap_shadertoy_glsl(user_code);

    assert!(wrapped.source.contains("#version 450"));
    assert!(wrapped.source.contains("layout(set = 0, binding = 0) uniform Uniforms"));
    assert!(wrapped.source.contains("vec3 iResolution"));
    assert!(wrapped.source.contains("float iTime"));
    assert!(wrapped.source.contains("vec4 iMouse"));
    assert!(wrapped.source.contains("vec4 iDate"));
    assert!(wrapped.source.contains("_ww_FragCoord"));
    assert!(wrapped.source.contains("mainImage(outColor, _ww_FragCoord.xy)"));
    assert!(wrapped.wrapper_line_offset > 0);
}

#[test]
fn test_map_error_line() {
    let wrapped = wrap_shadertoy_glsl("// line 1\n// line 2\n");
    let offset = wrapped.wrapper_line_offset;
    // Error on wrapper line offset + 2 should map to user line 2
    assert_eq!(map_error_line(offset + 2, offset), 2);
    // Error in preamble maps to 0
    assert_eq!(map_error_line(3, offset), 0);
}

#[test]
fn test_fullscreen_triangle_wgsl() {
    assert!(FULLSCREEN_QUAD_WGSL.contains("vs_main"));
    assert!(FULLSCREEN_QUAD_WGSL.contains("vertex_index"));
    assert!(FULLSCREEN_QUAD_WGSL.contains("@builtin(position)"));
}

#[test]
fn test_is_shader_file() {
    assert!(is_shader_file("demo.shader", PathStyle::Unix));
    assert!(is_shader_file("DEMO.SHADER", PathStyle::Unix));
    assert!(!is_shader_file("index.html", PathStyle::Unix));
}

#[test]
fn wrapping_is_exact() {
    let wrapped = wrap_shadertoy_glsl("x");
    assert_eq!(wrapped.source, format!("{}x{}", WRAPPER_PREAMBLE, WRAPPER_SUFFIX));
    assert_eq!(wrapped.wrapper_line_offset, WRAPPER_PREAMBLE.lines().count());
    assert_eq!(wrapped.wrapper_line_offset, 16);
    assert!(BLIT_SHADER_WGSL.contains("fs_main"));
}

#[test]
fn preprocessing_fixups() {
    assert_eq!(
        preprocess_shadertoy_glsl("float f(const in vec2 p) { return gl_FragCoord.x; }"),
        "float f(in vec2 p) { return _ww_FragCoord.x; }"
    );
    assert_eq!(preprocess_shadertoy_glsl("const int n = 3;"), "const int n = 3;");
    assert_eq!(preprocess_shadertoy_glsl("const in const in "), "in in ");
}

#[test]
fn line_counting() {
    assert_eq!(count_lines(""), 0);
    assert_eq!(count_lines("a"), 1);
    assert_eq!(count_lines("a\n"), 1);
    assert_eq!(count_lines("a\n\nb"), 3);
    assert_eq!(count_lines("\n"), 1);
    for s in ["", "x", "x\n", "x\ny", "\n\n", "a\r\nb"] {
        assert_eq!(count_lines(s), s.lines().count());
    }
}

#[test]
fn error_line_mapping() {
    assert_eq!(map_error_line(20, 16), 4);
    assert_eq!(map_error_line(16, 16), 0);
    assert_eq!(map_error_line(0, 0), 0);
    assert_eq!(map_error_line(1, 0), 1);
}

#[test]
fn shader_names() {
    assert!(is_shader_file("/tmp/dir.x/a.Shader", PathStyle::Unix));
    assert!(!is_shader_file(".shader", PathStyle::Unix));
    assert!(!is_shader_file("shader", PathStyle::Unix));
    assert!(!is_shader_file("a.shaders", PathStyle::Unix));
}

#[test]
fn shader_source_check() {
    let good = "void mainImage(out vec4 c, in vec2 f) { c = vec4(1.0); }".to_string();
    assert_eq!(validate_shader_source(good.clone()), Ok(good));
    assert_eq!(
        validate_shader_source("void main() {}".to_string()),
        Err("Shader file must define a ShaderToy-style mainImage() function".to_string())
    );
}

#[test]
fn renderer_errors() {
    let shader = RendererError::Pipeline(PipelineError::ShaderError("bad".to_string()));
    assert!(shader.is_shader_error());
    assert!(!shader.is_no_adapter());
    assert_eq!(shader.message(), "shader compilation failed: bad");
    let none = RendererError::from(PipelineError::NoAdapter);
    assert!(none.is_no_adapter());
    assert!(!none.is_shader_error());
    assert!(none.message().starts_with("no compatible GPU adapter found"));
    let surface = RendererError::Surface("lost".to_string());
    assert!(!surface.is_shader_error());
    assert_eq!(surface.message(), "surface error: lost");
    assert_eq!(PipelineError::DeviceError("d".to_string()).message(), "GPU device error: d");
    assert_eq!(PipelineError::SurfaceError("s".to_string()).message(), "surface error: s");
}

#[test]
fn shader_files_on_windows_paths() {
    assert!(is_shader_file("C:\\shaders\\demo.SHADER", PathStyle::Windows));
    assert!(!is_shader_file("C:\\shaders\\.shader", PathStyle::Windows));
    assert!(is_shader_file("dir\\.shader", PathStyle::Unix));
}
