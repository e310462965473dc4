use spotter::region::validate_region;

#[test]
fn test_validate_region_valid() {
    // Test valid regions
    assert!(validate_region("us-east-1").is_ok());
    assert!(validate_region("eu-west-1").is_ok());
    assert!(validate_region("ap-northeast-1").is_ok());
    assert!(validate_region("ca-central-1").is_ok());
    assert!(validate_region("sa-east-1").is_ok());
}

#[test]
fn test_validate_region_invalid() {
    // Test invalid regions
    let result = validate_region("invalid-region");
    assert!(result.is_err());

    let error = result.unwrap_err();
    assert_eq!(error.region, "invalid-region");
    assert!(error
        .message()
        .contains("Invalid AWS region 'invalid-region'"));

    // Test other invalid regions
    assert!(validate_region("us-east-3").is_err());
    assert!(validate_region("eu-west-4").is_err());
    assert!(validate_region("").is_err());
    assert!(validate_region("not-a-region").is_err());
}

#[test]
fn every_listed_region_is_accepted() {
    for r in [
        "us-east-2", "us-west-1", "us-west-2", "af-south-1", "ap-east-1", "ap-south-1",
        "ap-south-2", "ap-southeast-1", "ap-southeast-2", "ap-southeast-3", "ap-southeast-4",
        "ap-northeast-2", "ap-northeast-3", "ca-west-1", "eu-central-1", "eu-central-2",
        "eu-west-2", "eu-west-3", "eu-south-1", "eu-south-2", "eu-north-1", "il-central-1",
        "me-south-1", "me-central-1",
    ] {
        assert!(validate_region(r).is_ok(), "{}", r);
    }
}

#[test]
fn region_check_is_exact() {
    assert!(validate_region("US-EAST-1").is_err());
    assert!(validate_region("us-east-1 ").is_err());
    assert!(validate_region("us-east").is_err());
}

#[test]
fn invalid_region_message_is_complete() {
    let e = validate_region("mars-1").unwrap_err();
    assert_eq!(
        e.message(),
        "Invalid AWS region 'mars-1'. Please use a valid AWS region code (e.g., us-east-1, eu-west-1, ap-northeast-1)"
    );
}
