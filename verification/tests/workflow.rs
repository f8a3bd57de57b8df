use photo_hat_engine::metadata::Metadata;
use photo_hat_engine::recipe::capture_date;
use photo_hat_engine::Recipe;

#[test]
fn dates_and_recipes_preserve_camera_clock() {
    let mut meta = Metadata::empty();
    meta.push_text("ExifIFD:DateTimeOriginal", "2024:07:18 23:30:22");
    meta.push_text("ExifIFD:OffsetTimeOriginal", "-03:00");
    meta.push_text("IFD0:Model", "Canon / R5");
    let recipe = Recipe::default();
    let (path, warning) = recipe
        .destination(&meta, "DSC_2048.CR3", false, None)
        .unwrap();
    assert_eq!(path, "Photos/2024/2024-07-18/DSC_2048.CR3");
    assert!(warning.is_none());
    let mut zero = Metadata::empty();
    zero.push_text("DateTimeOriginal", "0000:00:00 00:00:00");
    assert!(capture_date(&zero).is_none());
    assert!(Recipe {
        folder_template: "../../escape".into(),
        ..recipe.clone()
    }
    .validate()
    .is_err());
    assert!(Recipe {
        folder_template: "{unknown}".into(),
        ..recipe.clone()
    }
    .validate()
    .is_err());
    assert!(Recipe {
        operation: "delete".into(),
        ..recipe
    }
    .validate()
    .is_err());
}
