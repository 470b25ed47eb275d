use cf::challenge::{
    collect_quoted_strings, extract_balanced_object, extract_chl_opt_object, is_cf_versioned_token,
    is_cv_id, is_platform_branch, is_ray, is_unix_seconds, is_widget_id, looks_like_hostname,
    named_string, ChallengeParseError, CloudflareChallengeOptions,
};

const RANDOMIZED_HTML: &str = r#"<!DOCTYPE html><html><script>
window._cf_chl_opt = {kwYu6: '3',iHMNd4: 'challenges.cloudflare.com',aaPs0: 5,CORKS6: '0',yLYdq1: 'nsp06',ZSOv1: '0x4AAAAAAER49t0sMxTcief0',GqmCB8: 'invisible',FDwx0: 'normal',jBgT4: 'dark',qYXIZ1: 'duzwS3R88HaptZDmjTF5Hl447ssndpAjc01iavMlLco-1787317736-1.3.1.1-QrWkMgdMFgFhNnZ5co9VtX84SDS4Xy1Am.cD1jxrF7I',OxVd3: 'new',GHjg0: 'tjBwNx1WMngaeo7avrkB_fOgBmxgjfCZC9h7JANlyYI-1787317736-1.3.1.1-SJ8szLTlv2gC6LJby6jzYz77IbBj_6PKNDwbuqSzjJjgOvMOiH0dhOMDLEiU_IyfZtGCr.et30XM9lTBavcZaQ',MEjdb0: 'chl_api_inv',wxfI5: 'a2e9de8f39a58015',FIHY8: 'FLEwnStyjx6jLxco0wJo48QfCzWSPV80NlZ0WRO3K_k-1787317736-1.2.1.1-FRszUAzRwVWa83pGUFa6gFsbVPifKuvz3UNw8rb98DxM4GER2C.VRl904dIaujIa',STupN6: 'g',QSsJ3: 'n',yTXuH8: 'lQ23MdZ.PCVk6_kC1W9gcEOML4eZbayrcPuh5A08bOU-1787317736-1.2.1.1-verylongmdpayloadxxxxxxxxxxxxxxxxxxxxxxxxxxxxxxxxxxxxxxxxxxxxxxxxxxxxxxxxxxxxxxxxxxxxxxxxxxxxxxxxxxxxxxxxxxxxxxxxxxxxxxxxxxxxxxxxxxxxxxxxxxxxxxxxxxxxxxxx',cVRzu3: 'fMro04NZ7QrZH41Nr1G8ceARyx8otwx4XACJ.twJI1s-1787317736-1.2.1.1-5G6BWHIufy91cjzaLJDoIgVspSI1sSiA4eEAhrHkJE_llHuZ58Euz7MgmcKF_Yl6HIULXsStTuXh10v1YqAVkBr2thX',jRwR8: '1787317736',STeH5: 'qkf0qnfc',RgbV8: function(refreshTrigger){window.parent.postMessage({trigger: refreshTrigger,source: 'cloudflare-challenge',widgetId: 'nsp06',nextRcV: 'duzwS3R88HaptZDmjTF5Hl447ssndpAjc01iavMlLco-1787317736-1.3.1.1-QrWkMgdMFgFhNnZ5co9VtX84SDS4Xy1Am.cD1jxrF7I',event: 'reloadRequest',}, '*');}};
"/fo/3582283294:1787313908:APFDW9U4h3BzonFjglK0KtrPIGcFM_zQT0e9v8HCAcs/"
</script></html>"#;

const LEGACY_HTML: &str = r#"<html><script>window._cf_chl_opt={cType:'chl_api',cvId:'3',cFPWv:'b',cZone:'challenges.cloudflare.com',chlApivId:'v0',chlApiWidgetId:'abc12',chlApiSitekey:'0x4AAAAAABdbdHypG5Crbw0P',chlApiMode:'managed',chlApiSize:'normal',chlApiRcV:'rcv-token',cRay:'0123456789abcdef',cH:'ch-token',md:'md-token',cITimeS:'1700000000',chlIssUA:'Mozilla',chlIp:'1.2.3.4',chlApiResetSrc:'reset'};chlTimeoutMs:10000,'turnstile-u',</script></html>"#;

#[test]
fn parse_legacy_named_keys() {
    let opt = CloudflareChallengeOptions::from_html(LEGACY_HTML).unwrap();
    assert_eq!(opt.c_type, "chl_api");
    assert_eq!(opt.c_ray, "0123456789abcdef");
    assert_eq!(opt.site_key, "0x4AAAAAABdbdHypG5Crbw0P");
    assert_eq!(opt.zone, "challenges.cloudflare.com");
    assert_eq!(opt.widget_id, "abc12");
    assert_eq!(opt.api_mode, "managed");
    assert_eq!(opt.turnstile_u, "turnstile-u");
}

#[test]
fn parse_randomized_keys_and_trailing_function() {
    let opt = CloudflareChallengeOptions::from_html(RANDOMIZED_HTML).unwrap();
    assert_eq!(opt.site_key, "0x4AAAAAAER49t0sMxTcief0");
    assert_eq!(opt.zone, "challenges.cloudflare.com");
    assert_eq!(opt.widget_id, "nsp06");
    assert_eq!(opt.api_mode, "invisible");
    assert_eq!(opt.api_size, "normal");
    assert_eq!(opt.c_type, "chl_api_inv");
    assert_eq!(opt.c_ray, "a2e9de8f39a58015");
    assert_eq!(opt.branch, "g");
    assert_eq!(opt.cv_id, "3");
    assert_eq!(opt.time, "1787317736");
    assert_eq!(
        opt.api_rcv,
        "duzwS3R88HaptZDmjTF5Hl447ssndpAjc01iavMlLco-1787317736-1.3.1.1-QrWkMgdMFgFhNnZ5co9VtX84SDS4Xy1Am.cD1jxrF7I"
    );
    assert!(opt.ch.contains("-1.2.1.1-"), "ch={}", opt.ch);
    assert!(opt.md.len() > opt.ch.len(), "md should be the long token");
    assert_eq!(
        opt.fo_session,
        "3582283294:1787313908:APFDW9U4h3BzonFjglK0KtrPIGcFM_zQT0e9v8HCAcs"
    );
    assert!(!opt.missing_orchestrate_hint().contains("orchestrate/chl_api/v1"));
    assert!(opt.missing_orchestrate_hint().contains("/fo/"));
}

#[test]
fn rejects_html_without_chl_opt() {
    assert!(CloudflareChallengeOptions::from_html("<html>nope</html>").is_err());
}

#[test]
fn missing_zone_is_an_error() {
    let html = "<script>window._cf_chl_opt = {cType:'chl_api',cRay:'0123456789abcdef'};</script>";
    match CloudflareChallengeOptions::from_html(html) {
        Err(e @ ChallengeParseError::MissingZoneOrRay { .. }) => {
            assert_eq!(e.message(), "parsed _cf_chl_opt but missing zone/c_ray");
        }
        other => panic!("unexpected {other:?}"),
    }
    match CloudflareChallengeOptions::from_html("<p>no options</p>") {
        Err(e @ ChallengeParseError::MissingChlOpt) => {
            assert_eq!(e.message(), "Failed to find window._cf_chl_opt object");
        }
        other => panic!("unexpected {other:?}"),
    }
}

#[test]
fn randomized_tokens_pick_shortest_longest_and_reset() {
    let opt = CloudflareChallengeOptions::from_html(RANDOMIZED_HTML).unwrap();
    assert_eq!(
        opt.ch,
        "FLEwnStyjx6jLxco0wJo48QfCzWSPV80NlZ0WRO3K_k-1787317736-1.2.1.1-FRszUAzRwVWa83pGUFa6gFsbVPifKuvz3UNw8rb98DxM4GER2C.VRl904dIaujIa"
    );
    assert!(opt.md.starts_with("lQ23MdZ.PCVk6_kC1W9gcEOML4eZbayrcPuh5A08bOU-1787317736-1.2.1.1-verylong"));
    assert_eq!(
        opt.reset_src,
        "tjBwNx1WMngaeo7avrkB_fOgBmxgjfCZC9h7JANlyYI-1787317736-1.3.1.1-SJ8szLTlv2gC6LJby6jzYz77IbBj_6PKNDwbuqSzjJjgOvMOiH0dhOMDLEiU_IyfZtGCr.et30XM9lTBavcZaQ"
    );
}

#[test]
fn hint_without_session_names_type_ray_branch() {
    let opt = CloudflareChallengeOptions {
        c_type: "chl_api".to_string(),
        c_ray: "ray1".to_string(),
        branch: "b".to_string(),
        ..Default::default()
    };
    assert_eq!(
        opt.missing_orchestrate_hint(),
        "orchestrate/chl_api is not the VM this crate disassembles (type chl_api, ray ray1, branch b)"
    );
}

#[test]
fn value_shape_predicates() {
    assert!(is_ray("a2e9de8f39a58015"));
    assert!(!is_ray("a2e9de8f39a5801"));
    assert!(!is_ray("g2e9de8f39a58015"));
    assert!(is_unix_seconds("1787317736"));
    assert!(!is_unix_seconds("178731773a"));
    assert!(is_widget_id("nsp06"));
    assert!(!is_widget_id("Nsp06"));
    assert!(is_cv_id("3"));
    assert!(is_cv_id("12"));
    assert!(!is_cv_id("0"));
    assert!(!is_cv_id("123"));
    assert!(is_platform_branch("g"));
    assert!(!is_platform_branch("x"));
    assert!(looks_like_hostname("challenges.cloudflare.com"));
    assert!(!looks_like_hostname("no_dots"));
    assert!(is_cf_versioned_token(
        "FLEwnStyjx6jLxco0wJo48QfCzWSPV80NlZ0WRO3K_k-1787317736-1.2.1.1-FRszUAzRwVWa83pGUFa6gFsbVPifKuvz3UNw8rb98DxM4GER2C.VRl904dIaujIa"
    ));
    assert!(!is_cf_versioned_token("short-1787317736-1.2.1.1-x"));
}

#[test]
fn object_and_string_scanners() {
    assert_eq!(extract_balanced_object("x{a:'}',b:{c:1}}y", 1), Some("{a:'}',b:{c:1}}"));
    assert_eq!(extract_balanced_object("x{a:1", 1), None);
    assert_eq!(extract_balanced_object("x{a:1}", 0), None);
    assert_eq!(extract_chl_opt_object("window._cf_chl_opt = \n {k:'v'};"), Some("{k:'v'}"));
    assert_eq!(extract_chl_opt_object("window._cf_chl_opt = x"), None);
    assert_eq!(collect_quoted_strings("a:'x',b:\"y\\\"z\",c:'"), vec!["x".to_string(), "y\\\"z".to_string()]);
    assert_eq!(named_string("{widgetId: 'nsp06'}", "widgetId"), Some("nsp06".to_string()));
    assert_eq!(named_string("{other: 'x'}", "widgetId"), None);
}
