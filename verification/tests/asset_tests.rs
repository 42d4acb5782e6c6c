use viewer_core::lazy_load::{Asset, LazyLoad};
use viewer_core::mesh::MeshBuilder;
use viewer_core::platform::{Backend, ContextBuilder, ShaderPipeline, Shaders};

#[derive(Debug)]
struct Texture {
    pixels: usize,
}

impl Asset for Texture {
    type LoadParams = usize;
    type LoadError = String;

    fn load(params: &usize) -> Result<Texture, String> {
        if *params == 0 {
            Err(String::from("empty texture"))
        } else {
            Ok(Texture { pixels: *params })
        }
    }
}

#[test]
fn lazy_load_fills_once_and_keeps_the_first_asset() {
    let mut slot: LazyLoad<Texture> = LazyLoad::new();
    assert!(slot.get().is_err());
    slot.load(&16).unwrap();
    assert_eq!(slot.get().unwrap().pixels, 16);
    // A second load with other parameters is a no-op on a full slot.
    slot.load(&32).unwrap();
    assert_eq!(slot.get().unwrap().pixels, 16);
    slot.get_mut().unwrap().pixels = 48;
    assert_eq!(slot.get().unwrap().pixels, 48);
}

#[test]
fn lazy_load_error_paths() {
    let mut slot: LazyLoad<Texture> = LazyLoad::new();
    let err = slot.load(&0).unwrap_err();
    assert_eq!(err, "empty texture");
    assert!(slot.get().is_err());
    assert_eq!(slot.get().unwrap_err().message(), "Lazy asset not loaded");
    let slot = match slot.into_loaded() {
        Ok(_) => panic!("nothing was loaded"),
        Err(slot) => slot,
    };
    let mut slot = slot;
    slot.load(&8).unwrap();
    slot.unload();
    assert!(slot.get().is_err());
    slot.load(&8).unwrap();
    let texture = slot.into_loaded().ok().unwrap();
    assert_eq!(texture.pixels, 8);
}

#[test]
fn mesh_builder_carries_choices() {
    let mesh = MeshBuilder::new()
        .with_mesh("suzanne")
        .with_texture("img/checker.png")
        .build()
        .unwrap();
    assert_eq!(mesh.mesh_filename, "suzanne");
    assert_eq!(mesh.img_filename, Some("img/checker.png"));
    let bare = MeshBuilder::new().with_mesh("cube").build().unwrap();
    assert_eq!(bare.img_filename, None);
}

#[test]
fn backend_predicates() {
    assert!(Backend::Gl.is_gl());
    assert!(!Backend::Gl.is_metal());
    assert!(Backend::Metal.is_metal());
    assert!(!Backend::Metal.is_d3d11());
    assert!(Backend::D3d11.is_d3d11());
    assert!(!Backend::Vulkan.is_gl());
}

#[test]
fn backend_selects_matching_pipeline() {
    let shaders = Shaders {
        d3d11: ShaderPipeline::Simple { vertex: b"dv", pixel: b"dp" },
        glsl150: ShaderPipeline::Simple { vertex: b"gv", pixel: b"gp" },
        glsl120: ShaderPipeline::Simple { vertex: b"ov", pixel: b"op" },
        metal: ShaderPipeline::Simple { vertex: b"mv", pixel: b"mp" },
    };
    assert_eq!(
        Backend::Gl.select(shaders),
        ShaderPipeline::Simple { vertex: b"gv", pixel: b"gp" }
    );
    assert_eq!(
        Backend::Metal.select(shaders),
        ShaderPipeline::Simple { vertex: b"mv", pixel: b"mp" }
    );
    assert_eq!(
        Backend::D3d11.select(shaders),
        ShaderPipeline::Simple { vertex: b"dv", pixel: b"dp" }
    );
}

#[test]
fn context_builder_options() {
    let ctx = ContextBuilder::new();
    assert!(!ctx.is_vsync_enabled);
    assert!(ContextBuilder::new().with_vsync_enabled(true).is_vsync_enabled);
}
