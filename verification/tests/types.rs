use mdd_core::tree::{ChildElementType, NodeType, ServiceListType};

#[test]
fn is_service_includes_correct_variants() {
    assert!(NodeType::Service.is_service());
    assert!(NodeType::ParentRefService.is_service());
    assert!(NodeType::Request.is_service());
    assert!(NodeType::PosResponse.is_service());
    assert!(NodeType::NegResponse.is_service());
}

#[test]
fn is_service_excludes_job_and_others() {
    assert!(!NodeType::Job.is_service());
    assert!(!NodeType::Container.is_service());
    assert!(!NodeType::SectionHeader.is_service());
    assert!(!NodeType::Dop.is_service());
    assert!(!NodeType::Default.is_service());
}

#[test]
fn is_diagcomm_includes_service_plus_job() {
    assert!(NodeType::Service.is_diagcomm());
    assert!(NodeType::Job.is_diagcomm());
    assert!(NodeType::ParentRefService.is_diagcomm());
}

#[test]
fn is_diagcomm_excludes_non_diagcomm() {
    assert!(!NodeType::Container.is_diagcomm());
    assert!(!NodeType::Dop.is_diagcomm());
    assert!(!NodeType::Default.is_diagcomm());
}

#[test]
fn as_str_matches_display() {
    for elem in [
        ChildElementType::ComParamRefs,
        ChildElementType::DiagComms,
        ChildElementType::FunctionalClasses,
        ChildElementType::NegResponses,
        ChildElementType::PosResponses,
        ChildElementType::Requests,
        ChildElementType::SDGs,
        ChildElementType::StateCharts,
    ] {
        assert_eq!(elem.as_str(), elem.to_string());
    }
}

#[test]
fn to_service_list_type_mapping() {
    assert_eq!(ChildElementType::ComParamRefs.to_service_list_type(), ServiceListType::ComParamRefs);
    assert_eq!(ChildElementType::DiagComms.to_service_list_type(), ServiceListType::DiagComms);
    assert_eq!(ChildElementType::SDGs.to_service_list_type(), ServiceListType::SDGs);
    assert_eq!(ChildElementType::StateCharts.to_service_list_type(), ServiceListType::StateCharts);
}

#[test]
fn child_element_labels() {
    assert_eq!(ChildElementType::FunctionalClasses.as_str(), "Functional Classes");
    assert_eq!(ChildElementType::NegResponses.to_string(), "Neg-Responses");
    assert_eq!(ChildElementType::Requests.to_service_list_type(), ServiceListType::Requests);
}
