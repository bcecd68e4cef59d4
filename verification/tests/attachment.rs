use omega_daemon::attachment::{permit_check, AttachRequest, Attachment, Feature, PresentationKind, Scope, ViewNode};
use omega_daemon::refusal::ErrorCode;

fn request(features: Vec<Feature>, scope: Scope) -> AttachRequest {
    AttachRequest {
        features: features.into_iter().map(Some).collect(),
        scope: Some(Ok(scope)),
        fingerprint: None,
    }
}

fn node(target: &str, shortcuts: &[&str], children: Vec<ViewNode>) -> ViewNode {
    ViewNode {
        navigation_target: target.to_string(),
        shortcuts: shortcuts.iter().map(|s| s.to_string()).collect(),
        children,
    }
}

fn required() -> Vec<Feature> {
    vec![
        Feature::Instances,
        Feature::ScopedInteractions,
        Feature::LocalMessages,
        Feature::ControlledInputs,
    ]
}

#[test]
fn keyboard_features_are_required_only_for_views_using_them() {
    let mut features = required();
    features.push(Feature::Windows);
    let mut attachment = Attachment::from_request(request(features, Scope::Plugin("example".to_string()))).unwrap();
    assert!(attachment.accepts("example", "main", None, Some(PresentationKind::Window)));
    // A window of 400 by 300 needs the window feature, which is offered.
    let plain = Some(node("", &[], vec![node("", &[], vec![])]));
    assert!(attachment.validate(Ok(Feature::Windows), &plain).is_ok());
    assert!(attachment.validate(Ok(Feature::Windows), &None).is_ok());
    // A shortcut ("key:Escape") deep in the tree needs keyboard shortcuts.
    let keyed = Some(node("", &[], vec![node("", &[], vec![]), node("", &[], vec![node("", &["key:Escape"], vec![])])]));
    let refusal = attachment.validate(Ok(Feature::Windows), &keyed).unwrap_err();
    assert_eq!(refusal.message, "renderer does not support keyboard shortcuts");
    attachment.enable(Feature::KeyboardShortcuts);
    assert!(attachment.validate(Ok(Feature::Windows), &keyed).is_ok());
    // A navigation target ("results") needs resolved navigation.
    let navigating = Some(node("", &["key:Escape"], vec![node("results", &[], vec![])]));
    let refusal = attachment.validate(Ok(Feature::Windows), &navigating).unwrap_err();
    assert_eq!(refusal.message, "renderer does not support resolved navigation");
    attachment.enable(Feature::ResolvedNavigation);
    assert!(attachment.validate(Ok(Feature::Windows), &navigating).is_ok());
}

#[test]
fn a_renderer_missing_a_required_feature_is_refused_by_its_name() {
    let features = vec![Feature::Instances, Feature::LocalMessages, Feature::ControlledInputs];
    let refusal = Attachment::from_request(request(features, Scope::Plugin("example".to_string()))).unwrap_err();
    assert_eq!(refusal.code, ErrorCode::FailedPrecondition);
    assert_eq!(refusal.message, "renderer requires RENDERER_FEATURE_SCOPED_INTERACTIONS");
}

#[test]
fn an_unknown_feature_and_too_many_features_are_refused() {
    let mut unknown = request(required(), Scope::Plugin("example".to_string()));
    unknown.features.push(None);
    let refusal = Attachment::from_request(unknown).unwrap_err();
    assert_eq!(refusal.code, ErrorCode::Unimplemented);
    assert_eq!(refusal.message, "unknown renderer feature");

    let many = request(vec![Feature::Instances; 17], Scope::Plugin("example".to_string()));
    let refusal = Attachment::from_request(many).unwrap_err();
    assert_eq!(refusal.code, ErrorCode::InvalidArgument);
    assert_eq!(refusal.message, "too many renderer features");
}

#[test]
fn a_scope_is_required() {
    let mut request = request(required(), Scope::Plugin("example".to_string()));
    request.scope = None;
    let refusal = Attachment::from_request(request).unwrap_err();
    assert_eq!(refusal.code, ErrorCode::InvalidArgument);
    assert_eq!(refusal.message, "renderer scope is required");
}

#[test]
fn a_presentation_the_renderer_lacks_is_refused() {
    let attachment = Attachment::from_request(request(required(), Scope::Plugin("example".to_string()))).unwrap();
    let refusal = attachment.validate(Ok(Feature::Overlays), &None).unwrap_err();
    assert_eq!(refusal.code, ErrorCode::Unimplemented);
    assert_eq!(refusal.message, "renderer does not support this presentation");
}

#[test]
fn scopes_take_only_their_own_views_while_current() {
    let mut plugin = Attachment::from_request(request(required(), Scope::Plugin("example".to_string()))).unwrap();
    assert!(plugin.accepts("example", "main", None, Some(PresentationKind::Overlay)));
    assert!(!plugin.accepts("example", "main", None, Some(PresentationKind::Embedded)));
    assert!(!plugin.accepts("other", "main", None, Some(PresentationKind::Window)));

    let placement = Attachment::from_request(request(
        required(),
        Scope::Placement {
            plugin: "example".to_string(),
            surface: "panel".to_string(),
            placement: "slot".to_string(),
        },
    ))
    .unwrap();
    assert!(placement.accepts("example", "panel", Some("slot"), Some(PresentationKind::Popup)));
    assert!(!placement.accepts("example", "panel", Some("other"), Some(PresentationKind::Popup)));
    assert!(!placement.accepts("example", "panel", Some("slot"), Some(PresentationKind::Window)));

    plugin.revoke();
    assert!(!plugin.active());
    assert!(!plugin.accepts("example", "main", None, Some(PresentationKind::Window)));
    assert!(permit_check(plugin.active()).is_err());
    assert!(permit_check(placement.active()).is_ok());
}
