use tortoaster::{
    AppClaims, ClientRoles, ImageContentType, Method, NewComment, Page, PaginatedResponse,
    Pager, ResourceAccess, Role, UnsupportedContentType,
};

#[test]
fn pager_accepts_only_the_allowed_range() {
    let base: Pager<i64> = Pager { after: None, before: None, items: None };
    assert!(base.validate());
    assert!(Pager::<i64> { items: Some(1), ..base }.validate());
    assert!(Pager::<i64> { items: Some(50), ..base }.validate());
    assert!(!Pager::<i64> { items: Some(0), ..base }.validate());
    assert!(!Pager::<i64> { items: Some(51), ..base }.validate());
    assert!(!Pager::<i64> { items: Some(-3), ..base }.validate());
}

#[test]
fn pager_items_defaulting() {
    let base: Pager<i64> = Pager { after: None, before: None, items: None };
    assert_eq!(base.items_or(20), 20);
    assert_eq!(Pager::<i64> { items: Some(7), ..base }.items_or(20), 7);
}

#[test]
fn page_carries_its_flags() {
    let page = Page { items: vec![1, 2, 3], has_previous: false, has_next: true };
    assert_eq!(page.items.len(), 3);
    assert!(!page.has_previous);
    assert!(page.has_next);
}

#[test]
fn paginated_response_continues_after_the_last_item() {
    let pager: Pager<i64> = Pager { after: None, before: None, items: None };
    let empty: PaginatedResponse<i64, i64> = PaginatedResponse { items: vec![], pager };
    assert_eq!(empty.continue_from(), None);
    let full: PaginatedResponse<i64, i64> =
        PaginatedResponse { items: vec![10, 11, 12], pager };
    assert_eq!(full.continue_from(), Some(2));
}

#[test]
fn comment_length_bounds() {
    assert!(!NewComment { message: vec![] }.validate());
    assert!(NewComment { message: vec![b'x'] }.validate());
    assert!(NewComment { message: vec![b'x'; 4096] }.validate());
    assert!(!NewComment { message: vec![b'x'; 4097] }.validate());
}

#[test]
fn content_type_parses_known_mimes() {
    assert_eq!(
        ImageContentType::parse(&b"image/png".to_vec()),
        Ok(ImageContentType::Png)
    );
    assert_eq!(
        ImageContentType::parse(&b"image/svg+xml".to_vec()),
        Ok(ImageContentType::Svg)
    );
    assert_eq!(
        ImageContentType::parse(&b"IMAGE/JPEG".to_vec()),
        Ok(ImageContentType::Jpeg)
    );
    assert_eq!(
        ImageContentType::parse(&b"text/plain".to_vec()),
        Err(UnsupportedContentType)
    );
}

#[test]
fn content_type_prints_its_mime() {
    assert_eq!(ImageContentType::Png.mime(), b"image/png".to_vec());
    assert_eq!(ImageContentType::Webp.mime(), b"image/webp".to_vec());
    assert_eq!(ImageContentType::Svg.mime(), b"image/svg+xml".to_vec());
}

#[test]
fn admin_claims_are_detected() {
    let with_admin = AppClaims {
        resource_access: ResourceAccess { tortoaster: ClientRoles { roles: vec![Role::Admin] } },
    };
    assert!(with_admin.is_admin());
    let without = AppClaims {
        resource_access: ResourceAccess { tortoaster: ClientRoles { roles: vec![] } },
    };
    assert!(!without.is_admin());
}

#[test]
fn method_attributes() {
    assert_eq!(Method::Post.attribute(), "hx-post");
    assert_eq!(Method::Patch.attribute(), "hx-patch");
}
