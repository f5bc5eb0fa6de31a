use geodns::geo::country_for;
use geodns::geo::greet;
use geodns::geo::GeoLookup;
use geodns::geo::GeoRouting;
use geodns::geo::Greeting;
use geodns::geo::REDIRECTED_COUNTRY;
use geodns::geo::REDIRECT_SERVER;

fn found(code: &str) -> GeoLookup {
    GeoLookup::Country { iso_code: Some(code.to_string()) }
}

#[test]
fn the_country_is_the_iso_code_that_the_lookup_found() {
    assert_eq!(country_for(found("IR")), "IR");
    assert_eq!(country_for(found("DE")), "DE");
    assert_eq!(country_for(found("x")), "x");
}

#[test]
fn the_country_defaults_where_the_lookup_gives_none() {
    assert_eq!(country_for(GeoLookup::Failed), "DEFAULT");
    assert_eq!(country_for(GeoLookup::NotFound), "DEFAULT");
    assert_eq!(country_for(GeoLookup::NoCountry), "DEFAULT");
    assert_eq!(country_for(GeoLookup::Country { iso_code: None }), "DEFAULT");
}

#[test]
fn an_empty_iso_code_is_no_country() {
    assert_eq!(country_for(found("")), "DEFAULT");
}

#[test]
fn the_routing_table_has_its_built_in_route() {
    let routing = GeoRouting::new();
    assert_eq!(routing.route_request("IR"), Some("8.8.8.8".to_string()));
    assert_eq!(REDIRECTED_COUNTRY, "IR");
    assert_eq!(REDIRECT_SERVER, "8.8.8.8");
}

#[test]
fn the_routing_table_has_no_other_route() {
    let routing = GeoRouting::new();
    assert_eq!(routing.route_request("DE"), None);
    assert_eq!(routing.route_request("ir"), None);
    assert_eq!(routing.route_request(""), None);
    assert_eq!(routing.route_request("IRN"), None);
}

#[test]
fn a_client_of_the_redirected_country_is_redirected() {
    let routing = GeoRouting::new();
    let greeting = greet(&routing, Some(found("IR")));
    assert!(matches!(&greeting, Greeting::Redirect { server } if server == "8.8.8.8"));
    assert_eq!(greeting.text(), "Redirecting to: 8.8.8.8");
}

#[test]
fn a_client_of_another_country_is_welcomed() {
    let routing = GeoRouting::new();
    let greeting = greet(&routing, Some(found("DE")));
    assert!(matches!(greeting, Greeting::Welcome));
    assert_eq!(greeting.text(), "Welcome! You're connected to the default server.");
    assert!(matches!(greet(&routing, Some(found(""))), Greeting::Welcome));
}

#[test]
fn a_client_without_country_is_told_so() {
    let routing = GeoRouting::new();
    for lookup in [
        GeoLookup::Failed,
        GeoLookup::NotFound,
        GeoLookup::NoCountry,
        GeoLookup::Country { iso_code: None },
    ] {
        let greeting = greet(&routing, Some(lookup));
        assert!(matches!(greeting, Greeting::NoCountry));
        assert_eq!(greeting.text(), "Could not determine country");
    }
}

#[test]
fn a_client_without_address_is_told_so() {
    let routing = GeoRouting::new();
    let greeting = greet(&routing, None);
    assert!(matches!(greeting, Greeting::NoAddress));
    assert_eq!(greeting.text(), "Failed to get IP");
}
