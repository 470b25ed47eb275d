use cf::probe::{Probe, ProbeAction, ProbeStage};
use cf::protocol::{fo_blob_url, orchestrate_url, turnstile_iframe_url, DEMO_HREF, DEMO_SITE_KEY, PUBLIC_API_JS};

const PAGE: &str = r#"<html><script>window._cf_chl_opt={cType:'chl_api',cvId:'3',cFPWv:'b',cZone:'challenges.cloudflare.com',chlApivId:'v0',chlApiWidgetId:'abc12',chlApiSitekey:'0x4AAAAAABdbdHypG5Crbw0P',chlApiMode:'managed',chlApiSize:'normal',chlApiRcV:'rcv-token',cRay:'0123456789abcdef',cH:'ch-token',md:'md-token',cITimeS:'1700000000',chlIssUA:'Mozilla',chlIp:'1.2.3.4',chlApiResetSrc:'reset'};chlTimeoutMs:10000,'turnstile-u',</script>"/fo/1:2:sess/"</html>"#;

fn probe_at_iframe(api_url: &str) -> (Probe, String) {
    let (mut p, first) = Probe::start(DEMO_SITE_KEY, DEMO_HREF);
    match first {
        ProbeAction::FetchApiJs { url, referer } => {
            assert_eq!(url, PUBLIC_API_JS);
            assert_eq!(referer, DEMO_HREF);
        }
        other => panic!("unexpected first action {other:?}"),
    }
    match p.on_api_js(api_url, None) {
        ProbeAction::FetchIframe { url, referer } => {
            assert_eq!(referer, DEMO_HREF);
            (p, url)
        }
        other => panic!("unexpected action {other:?}"),
    }
}

#[test]
fn api_js_branch_names_the_iframe() {
    let (p, url) = probe_at_iframe("https://challenges.cloudflare.com/turnstile/v0/b/abc123/api.js");
    assert_eq!(p.branch, "b");
    assert_eq!(p.version.as_ref().map(|v| v.version.as_str()), Some("abc123"));
    assert_eq!(p.widget_id.len(), 5);
    assert_eq!(url, turnstile_iframe_url("b", DEMO_SITE_KEY, &p.widget_id));
    assert_eq!(p.stage, ProbeStage::AwaitIframe);
}

#[test]
fn unversioned_api_js_defaults_to_branch_g() {
    let (p, url) = probe_at_iframe(PUBLIC_API_JS);
    assert_eq!(p.branch, "g");
    assert!(p.version.is_none());
    assert_eq!(url, turnstile_iframe_url("g", DEMO_SITE_KEY, &p.widget_id));
}

#[test]
fn unparsed_iframe_stops_the_probe() {
    let (mut p, _) = probe_at_iframe(PUBLIC_API_JS);
    let a = p.on_iframe(200, "<html>no options</html>");
    assert!(matches!(a, ProbeAction::Finish));
    assert_eq!(p.stage, ProbeStage::Done);
    assert!(!p.iframe_ok());
    assert_eq!(p.next_failure(), "iframe");
}

#[test]
fn parsed_iframe_fetches_orchestrate_then_fo_blob() {
    let (mut p, iframe) = probe_at_iframe(PUBLIC_API_JS);
    match p.on_iframe(200, PAGE) {
        ProbeAction::FetchOrchestrate { url, referer } => {
            assert_eq!(url, orchestrate_url("challenges.cloudflare.com", "g", "0123456789abcdef"));
            assert_eq!(referer, iframe);
        }
        other => panic!("unexpected action {other:?}"),
    }
    assert_eq!(p.fo_session.as_deref(), Some("1:2:sess"));
    match p.on_orchestrate() {
        ProbeAction::FetchFoBlob { url, referer } => {
            assert_eq!(url, fo_blob_url("challenges.cloudflare.com", "g", "1:2:sess", "0123456789abcdef", "ch-token"));
            assert_eq!(referer, iframe);
        }
        other => panic!("unexpected action {other:?}"),
    }
    assert!(matches!(p.on_fo_blob(), ProbeAction::Finish));
    assert!(p.iframe_ok());
    assert_eq!(p.next_failure(), "orchestrate_replaced_by_fo_blob");
}

#[test]
fn missing_ch_skips_the_fo_blob() {
    let page = PAGE.replace("cH:'ch-token'", "cH:''");
    let (mut p, _) = probe_at_iframe(PUBLIC_API_JS);
    assert!(matches!(p.on_iframe(200, &page), ProbeAction::FetchOrchestrate { .. }));
    match p.on_orchestrate() {
        ProbeAction::SkipFoBlob { session } => assert_eq!(session, "1:2:sess"),
        other => panic!("unexpected action {other:?}"),
    }
    assert_eq!(p.stage, ProbeStage::Done);
}

#[test]
fn no_session_finishes_after_orchestrate() {
    let page = PAGE.replace("\"/fo/1:2:sess/\"", "");
    let (mut p, _) = probe_at_iframe(PUBLIC_API_JS);
    assert!(matches!(p.on_iframe(404, &page), ProbeAction::FetchOrchestrate { .. }));
    assert!(matches!(p.on_orchestrate(), ProbeAction::Finish));
    assert!(!p.iframe_ok());
}
