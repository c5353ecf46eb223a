use upsilon_dev::test_macro::{
    check_params, test_options, ExtraTestAttr, ParamError, ParamKind, TestAttrError, TestConfigInit, TestFnAttr,
};

#[test]
fn default_options() {
    let o = test_options(&[]).unwrap();
    assert!(o.works_offline);
    assert_eq!(o.config_init, TestConfigInit::Basic);
    assert!(o.extra_attrs.is_empty());
}

#[test]
fn offline_and_server_attributes() {
    let o = test_options(&[
        TestFnAttr::GitDaemon,
        TestFnAttr::Offline(Some("ignore".to_owned())),
        TestFnAttr::TestAttr("should_panic".to_owned()),
        TestFnAttr::GitSsh,
    ])
    .unwrap();
    assert!(!o.works_offline);
    assert_eq!(o.config_init, TestConfigInit::WithSsh);
    assert_eq!(
        o.extra_attrs,
        vec![
            ExtraTestAttr::GitDaemonIgnoredOnWindowsCi,
            ExtraTestAttr::Custom("should_panic".to_owned()),
            ExtraTestAttr::GitSshIgnoredOnWindows,
            ExtraTestAttr::IgnoredOffline,
        ]
    );
    assert!(test_options(&[TestFnAttr::Offline(Some("run".to_owned()))]).unwrap().works_offline);
    assert!(test_options(&[TestFnAttr::Offline(None)]).unwrap().works_offline);
}

#[test]
fn refused_attributes() {
    let e = test_options(&[TestFnAttr::Offline(Some("maybe".to_owned())), TestFnAttr::Offline(None)]).unwrap_err();
    assert_eq!(e, TestAttrError::BadOfflineValue("maybe".to_owned()));
    assert_eq!(e.message(), "Should be `ignore` or `run`");
    let e = test_options(&[TestFnAttr::Offline(None), TestFnAttr::GitSsh, TestFnAttr::Offline(None)]).unwrap_err();
    assert_eq!(e, TestAttrError::MultipleOffline);
    assert_eq!(e.message(), "Multiple #[offline] attributes");
}

#[test]
fn test_parameters() {
    assert_eq!(check_params(&[ParamKind::MutRef, ParamKind::MutRef]), Ok(()));
    assert_eq!(check_params(&[]), Ok(()));
    let e = check_params(&[ParamKind::MutRef, ParamKind::SharedRef, ParamKind::Other]).unwrap_err();
    assert_eq!(e, ParamError::ExpectedMutableReference(1));
    assert_eq!(e.message(), "Expected a mutable reference type");
    assert_eq!(check_params(&[ParamKind::Other]), Err(ParamError::ExpectedReference(0)));
    assert_eq!(ParamError::ExpectedReference(0).message(), "Expected a reference type");
}
