use thumbcache::errors::EngineError;
use thumbcache::render::{
    choose_renderer, extension_of_path, plan_thumbnail, RendererKind, RenderPlan,
};

#[test]
fn extensions_are_taken_from_the_last_component_and_lowercased() {
    assert_eq!(extension_of_path("/home/u/docs/Report.PDF"), "pdf");
    assert_eq!(extension_of_path("C:\\files\\archive.tar.GZ"), "gz");
    assert_eq!(extension_of_path("noextension"), "");
    assert_eq!(extension_of_path("/dir.with.dots/noextension"), "");
    assert_eq!(extension_of_path("/a/.hidden"), "");
    assert_eq!(extension_of_path("photo.jpeg"), "jpeg");
}

#[test]
fn document_extension_routes_to_the_document_renderer() {
    assert_eq!(choose_renderer("pdf"), RendererKind::Document);
    assert_eq!(choose_renderer("png"), RendererKind::PlatformPreview);
    assert_eq!(choose_renderer(""), RendererKind::PlatformPreview);
}

#[test]
fn pdf_plan_rasterizes_the_first_page_within_the_bound() {
    let plan = plan_thumbnail("/docs/Manual.PDF", 256, false).unwrap();
    assert_eq!(
        plan,
        RenderPlan::Document { target_width: 256, target_height: 256, rotate_if_landscape: true }
    );
}

#[test]
fn other_types_go_to_the_platform_preview_when_available() {
    let plan = plan_thumbnail("/pics/photo.png", 128, true).unwrap();
    assert_eq!(plan, RenderPlan::PlatformPreview { box_width: 128, box_height: 128 });
}

#[test]
fn unsupported_type_without_platform_support_is_refused() {
    let r = plan_thumbnail("/pics/photo.png", 128, false);
    assert_eq!(r, Err(EngineError::UnsupportedFormat));
    let r2 = plan_thumbnail("/files/unknown.xyz", 128, false);
    assert_eq!(r2, Err(EngineError::UnsupportedFormat));
}

#[test]
fn error_kinds_describe_themselves() {
    assert!(!EngineError::UnsupportedFormat.describe().is_empty());
    assert!(!EngineError::BufferShapeMismatch.describe().is_empty());
    assert!(!EngineError::IndexIOFailure.describe().is_empty());
    assert!(!EngineError::BindingFailure.describe().is_empty());
    assert!(!EngineError::SourceReadFailure.describe().is_empty());
    assert!(!EngineError::PageUnavailable.describe().is_empty());
    assert!(!EngineError::RenderFailure.describe().is_empty());
    assert!(!EngineError::EncodeFailure.describe().is_empty());
    assert!(!EngineError::DeletionFailure.describe().is_empty());
}
