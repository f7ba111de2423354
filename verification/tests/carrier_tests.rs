use packtrack::dhl;
use packtrack::dhl::DhlTracker;
use packtrack::errors::Error;
use packtrack::gls;
use packtrack::gls::GlsTracker;
use packtrack::json::JsonValue;
use packtrack::models::PackageStatus;
use packtrack::postnl;
use packtrack::postnl::PostNLTracker;

#[test]
fn postnl_test_can_handle() {
    let tracker = PostNLTracker;
    assert_eq!(tracker.can_handle("xxx"), false);
    assert_eq!(tracker.can_handle("jouw.postnl.com/..."), true);
}

#[test]
fn test_get_barcode_and_postcode() {
    for (url, expected_barcode, expected_country, expected_postcode) in [
        ("", None, None, None),
        (
            "https://jouw.postnl.nl/track-and-trace/1ABCDE1234567-AA-1234AB?language=nl",
            Some("1ABCDE1234567"),
            Some("AA"),
            Some("1234AB"),
        ),
        (
            "https://jouw.postnl.nl/track-and-trace/1ABCDE1234567/NL/1234AB",
            Some("1ABCDE1234567"),
            Some("NL"),
            Some("1234AB"),
        ),
        (
            "https://jouw.postnl.nl/track-and-trace/1ABCDE1234567",
            Some("1ABCDE1234567"),
            None,
            None,
        ),
        (
            "https://jouw.postnl.nl/track-and-trace/1ABCDE1234567/NL",
            Some("1ABCDE1234567"),
            None,
            None,
        ),
    ] {
        let (barcode, country, postcode) = postnl::get_barcode_and_postcode(url);
        assert_eq!(barcode.as_deref(), expected_barcode);
        assert_eq!(country.as_deref(), expected_country);
        assert_eq!(postcode.as_deref(), expected_postcode);
    }
}

#[test]
fn test_build_url() {
    // bare minimum
    assert_eq!(
        postnl::build_url("1ABCDE1234567", None, None, "en"),
        "https://jouw.postnl.nl/track-and-trace/api/trackAndTrace/1ABCDE1234567?language=en"
    );

    // both the country and postcode should be present for them to be added.
    assert_eq!(
        postnl::build_url("1ABCDE1234567", None, Some("1234AB"), "en"),
        "https://jouw.postnl.nl/track-and-trace/api/trackAndTrace/1ABCDE1234567?language=en"
    );
    assert_eq!(
        postnl::build_url("1ABCDE1234567", Some("NL"), None, "en"),
        "https://jouw.postnl.nl/track-and-trace/api/trackAndTrace/1ABCDE1234567?language=en"
    );

    // fully populated
    assert_eq!(
        postnl::build_url("1ABCDE1234567", Some("NL"), Some("1234AB"), "nl"),
        "https://jouw.postnl.nl/track-and-trace/api/trackAndTrace/1ABCDE1234567-NL-1234AB?language=nl"
    );
}

#[test]
fn postnl_test_get_barcode() {
    let result = postnl::get_barcode("");
    assert!(result.is_err());
    assert!(matches!(
        result.err().unwrap(),
        Error::UrlParseFailed(_, _)
    ));

    let result = postnl::get_barcode(
        "https://jouw.postnl.nl/track-and-trace/1ABCDE1234567-AA-1234AB?language=nl",
    )
    .unwrap();
    assert_eq!(result, "1ABCDE1234567-AA-1234AB");
}

#[test]
fn test_get_url() {
    assert_eq!(
        postnl::get_url("xxx"),
        "https://jouw.postnl.nl/track-and-trace/api/trackAndTrace/xxx?language=en"
    );
}

#[test]
fn dhl_test_get_barcode() {
    for (url, barcode) in [
        (
            "https://my.dhlecommerce.nl/home/tracktrace/3SQLW0022110709/1234AB",
            "3SQLW0022110709%2B1234AB",
        ),
        (
            "https://my.dhlecommerce.nl/home/tracktrace/3SQLW0022110709",
            "3SQLW0022110709",
        ),
        (
            "https://www.dhl.com/nl-en/home/tracking/tracking-parcel.html?locale=true&submit=1&tracking-id=JVGL0614394500301769",
            "JVGL0614394500301769",
        ),
    ] {
        let result = dhl::get_barcode(url, None).unwrap();
        assert_eq!(result, barcode);
    }
}

#[test]
fn test_get_barcode_postcode() {
    // happy flow -- both barcode and postcode are present
    assert_eq!(
        gls::get_barcode_postcode("url?parcelNo=69Z&zipcode=1234AB", None).unwrap(),
        ("69Z".to_owned(), "1234AB".to_owned())
    );
    // happy flow -- only barcode present, but default postcode passed
    assert_eq!(
        gls::get_barcode_postcode("url?parcelNo=69Z", Some("1234AB")).unwrap(),
        ("69Z".to_owned(), "1234AB".to_owned())
    );

    // sad flows
    assert_eq!(
        gls::get_barcode_postcode("foo.com", None).err().unwrap(),
        Error::UrlParseFailed("foo.com".into(), "barcode".into())
    );
    assert_eq!(
        gls::get_barcode_postcode("url?parcelNo=1234", None)
            .err()
            .unwrap(),
        Error::UrlParseFailed("url?parcelNo=1234".into(), "postcode".into())
    );
}

#[test]
fn gls_test_to_package_sad() {
    // the barcode is the only piece of information whose absence is an error
    let empty = JsonValue::Obj(vec![]);
    assert_eq!(
        gls::to_package(&empty).err().unwrap(),
        Error::MissingField("barcode".into())
    );
}

#[test]
fn gls_test_deserialization_minimal() {
    let package = GlsTracker.parse("{\"parcelNo\": \"1234\"}").unwrap();
    assert_eq!(package.barcode, "1234");
    assert_eq!(package.channel, "GLS");
    assert_eq!(package.delivered, None);
    assert!(package.events.is_empty());
}

#[test]
fn gls_test_parse_delivered() {
    let text = "{\"parcelNo\": \"57250013150034\", \"deliveryScanInfo\": {\"dateTime\": \"2024-11-22T08:28:43\", \"isDelivered\": true}}";
    let package = GlsTracker.parse(text).unwrap();
    assert_eq!(package.status(), PackageStatus::Delivered);
    assert_eq!(package.delivered, Some(1732264123000));
}

#[test]
fn gls_test_parse_skips_malformed_scans() {
    // a scan without a timestamp, and one whose timestamp does not parse,
    // are passed over; the well-formed scan is kept
    let package = GlsTracker
        .parse("{\"parcelNo\": \"1234\", \"scans\": [{}]}")
        .unwrap();
    assert!(package.events.is_empty());

    let package = GlsTracker
        .parse("{\"parcelNo\": \"1234\", \"scans\": [{\"dateTime\": \"foo\"}]}")
        .unwrap();
    assert!(package.events.is_empty());

    let text = "{\"parcelNo\": \"1234\", \"scans\": [{\"dateTime\": \"foo\"}, {\"dateTime\": \"2024-11-22T08:28:43\", \"eventReasonDescr\": \"The parcel has been delivered.\"}]}";
    let package = GlsTracker.parse(text).unwrap();
    assert_eq!(package.events.len(), 1);
    assert_eq!(package.events[0].text, "The parcel has been delivered.");
}

#[test]
fn dhl_test_parse_fields() {
    let text = "[{\"barcode\": \"JVGL1\", \"shipper\": {\"name\": \"Sender Name\"}, \"receiver\": {\"name\": \"Receiver Name\"}, \"events\": [{\"timestamp\": \"2024-11-08T12:07:05Z\", \"category\": \"IN_DELIVERY\", \"status\": \"OUT_FOR_DELIVERY\"}]}]";
    let package = DhlTracker.parse(text).unwrap();
    assert_eq!(package.barcode, "JVGL1");
    assert_eq!(package.channel, "DHL");
    assert_eq!(package.sender.as_deref(), Some("Sender Name"));
    assert_eq!(package.recipient.as_deref(), Some("Receiver Name"));
    assert_eq!(package.events.len(), 1);
    assert_eq!(package.events[0].text, "IN_DELIVERY: OUT_FOR_DELIVERY");
}

#[test]
fn postnl_test_parse_colli() {
    let text = "{\"colli\": {\"3SX1\": {\"barcode\": \"3SX1\", \"sender\": {\"names\": {\"companyName\": \"Sender Company\", \"personName\": null}}}}}";
    let package = PostNLTracker.parse(text).unwrap();
    assert_eq!(package.barcode, "3SX1");
    assert_eq!(package.channel, "PostNL");
    assert_eq!(package.sender.as_deref(), Some("Sender Company"));
    assert_eq!(package.delivered, None);
}

#[test]
fn test_parse_invalid_json_fails() {
    let err = GlsTracker.parse("not json").err().unwrap();
    assert!(matches!(err, Error::ParseFailed(_)));
}
