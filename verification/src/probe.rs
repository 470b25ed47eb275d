//! The decisions of a live iframe probe: which request comes next and what the answers
//! mean. The caller performs each request and hands back what came of it.
use vstd::prelude::*;
use vstd::string::StringSliceAdditionalSpecFns;
use vstd::string::StrSliceExecFns;
use vstd::utf8::*;
use crate::challenge::{html_options, ChlOptView, CloudflareChallengeOptions};
use crate::protocol::{
    api_js_response_parts, extract_fo_session, fo_blob_url, fo_blob_url_spec, generate_widget_id, iframe_url,
    orchestrate_url, orchestrate_url_spec, parse_turnstile_api_js_response, turnstile_iframe_url, version_info_is,
    VersionInfo, FO_SESSION_PATTERN, PUBLIC_API_JS, WIDGET_ID_ALPHABET,
};
use crate::regex_support::regex_first_capture1;
use crate::text::to_string;

verus! {

/// Which answer the probe waits for.
#[derive(Debug, Clone, Copy, PartialEq, Eq, Structural)]
pub enum ProbeStage {
    AwaitApiJs,
    AwaitIframe,
    AwaitOrchestrate,
    AwaitFoBlob,
    Done,
}

/// What the caller does next.
#[derive(Debug)]
pub enum ProbeAction {
    /// GET the public `api.js` (any content type).
    FetchApiJs { url: String, referer: String },
    /// GET the widget iframe (HTML).
    FetchIframe { url: String, referer: String },
    /// GET the orchestrate URL without following redirects.
    FetchOrchestrate { url: String, referer: String },
    /// GET the `/fo/` blob.
    FetchFoBlob { url: String, referer: String },
    /// The page names a `/fo/` session but lacks `ch` or `c_ray`: the blob is not fetched.
    SkipFoBlob { session: String },
    /// Nothing more to fetch.
    Finish,
}

/// What a probe has learned so far.
pub struct Probe {
    pub site_key: String,
    pub href: String,
    /// The public `api.js` version, when its URL or redirect named one.
    pub version: Option<VersionInfo>,
    /// The platform branch of the iframe (`g` when `api.js` named none).
    pub branch: String,
    pub widget_id: String,
    pub iframe_url: String,
    pub iframe_status: u16,
    /// The iframe's `_cf_chl_opt`, when it parsed.
    pub options: Option<CloudflareChallengeOptions>,
    /// The `/fo/` session the iframe names.
    pub fo_session: Option<String>,
    pub stage: ProbeStage,
}

impl Probe {
    /// Parsed options exist whenever an orchestrate or `/fo/` answer is awaited.
    pub open spec fn wf(&self) -> bool {
        (self.stage == ProbeStage::AwaitOrchestrate || self.stage == ProbeStage::AwaitFoBlob) ==> self.options is Some
    }

    /// Starts a probe of `site_key` embedded on `href`: first fetch `api.js`.
    pub fn start(site_key: &str, href: &str) -> (r: (Probe, ProbeAction))
        ensures
            r.0.wf(),
            r.0.stage == ProbeStage::AwaitApiJs,
            r.0.site_key@ == site_key@,
            r.0.href@ == href@,
            r.0.version is None,
            r.0.options is None,
            r.0.fo_session is None,
            r.1 matches ProbeAction::FetchApiJs { url, referer } && url@ == PUBLIC_API_JS@ && referer@ == href@,
    {
        let probe = Probe {
            site_key: to_string(site_key),
            href: to_string(href),
            version: None,
            branch: String::new(),
            widget_id: String::new(),
            iframe_url: String::new(),
            iframe_status: 0,
            options: None,
            fo_session: None,
            stage: ProbeStage::AwaitApiJs,
        };
        (probe, ProbeAction::FetchApiJs { url: to_string(PUBLIC_API_JS), referer: to_string(href) })
    }

    /// The `api.js` answer (its final URL and `Location`): pick the branch, a widget id,
    /// and fetch the iframe.
    pub fn on_api_js(&mut self, final_url: &str, location: Option<&str>) -> (a: ProbeAction)
        requires
            old(self).stage == ProbeStage::AwaitApiJs,
        ensures
            final(self).wf(),
            final(self).stage == ProbeStage::AwaitIframe,
            final(self).site_key == old(self).site_key,
            final(self).href == old(self).href,
            final(self).options == old(self).options,
            final(self).fo_session == old(self).fo_session,
            match api_js_response_parts(final_url.spec_bytes(), location) {
                Ok((b, v)) => final(self).version matches Some(info) && version_info_is(info, b, v) && encode_utf8(
                    final(self).branch@,
                ) == b,
                Err(_) => final(self).version is None && final(self).branch@ == "g"@,
            },
            final(self).widget_id@.len() == 5,
            forall|i: int| 0 <= i < 5 ==> WIDGET_ID_ALPHABET@.contains(#[trigger] final(self).widget_id@[i]),
            final(self).iframe_url@ == iframe_url(final(self).branch@, final(self).site_key@, final(self).widget_id@),
            a matches ProbeAction::FetchIframe { url, referer } && url@ == final(self).iframe_url@ && referer@
                == final(self).href@,
    {
        let version = parse_turnstile_api_js_response(final_url, location).ok();
        let branch = match &version {
            Some(v) => to_string(v.branch.as_str()),
            None => to_string("g"),
        };
        let widget = generate_widget_id();
        let url = turnstile_iframe_url(branch.as_str(), self.site_key.as_str(), widget.as_str());
        self.version = version;
        self.branch = branch;
        self.widget_id = widget;
        self.iframe_url = to_string(url.as_str());
        self.stage = ProbeStage::AwaitIframe;
        ProbeAction::FetchIframe { url, referer: to_string(self.href.as_str()) }
    }

    /// The iframe answer: parse `_cf_chl_opt`; when it parsed, fetch the orchestrate URL.
    pub fn on_iframe(&mut self, status: u16, html: &str) -> (a: ProbeAction)
        requires
            old(self).stage == ProbeStage::AwaitIframe,
            html.spec_bytes().len() < i32::MAX,
        ensures
            final(self).wf(),
            final(self).site_key == old(self).site_key,
            final(self).href == old(self).href,
            final(self).branch == old(self).branch,
            final(self).iframe_url == old(self).iframe_url,
            final(self).iframe_status == status,
            match html_options(html.spec_bytes(), html@) {
                Some(v) => final(self).options matches Some(o) && o@ == v,
                None => final(self).options is None,
            },
            match html_options(html.spec_bytes(), html@) {
                Some(v) if v.fo_session.len() > 0 => final(self).fo_session matches Some(s) && s@ == v.fo_session,
                _ => match regex_first_capture1(FO_SESSION_PATTERN@, html@) {
                    Some(s) => final(self).fo_session matches Some(t) && t@ == s,
                    None => final(self).fo_session is None,
                },
            },
            match html_options(html.spec_bytes(), html@) {
                Some(v) => (a matches ProbeAction::FetchOrchestrate { url, referer } && url@ == orchestrate_url_spec(
                    v.zone,
                    old(self).branch@,
                    v.c_ray,
                ) && referer@ == old(self).iframe_url@) && final(self).stage == ProbeStage::AwaitOrchestrate,
                None => final(self).stage == ProbeStage::Done && a is Finish,
            },
    {
        self.iframe_status = status;
        let parsed = match CloudflareChallengeOptions::from_html(html) {
            Ok(o) => Some(o),
            Err(_) => None,
        };
        let session = match &parsed {
            Some(o) if o.fo_session.as_str().unicode_len() > 0 => Some(to_string(o.fo_session.as_str())),
            _ => extract_fo_session(html),
        };
        self.fo_session = session;
        match parsed {
            Some(o) => {
                let url = orchestrate_url(o.zone.as_str(), self.branch.as_str(), o.c_ray.as_str());
                self.options = Some(o);
                self.stage = ProbeStage::AwaitOrchestrate;
                ProbeAction::FetchOrchestrate { url, referer: to_string(self.iframe_url.as_str()) }
            },
            None => {
                self.options = None;
                self.stage = ProbeStage::Done;
                ProbeAction::Finish
            },
        }
    }

    /// The orchestrate answer (whatever it was): fetch the `/fo/` blob when the page names a
    /// session, a `ch` and a ray; report the session as skipped when only `ch` or the ray is missing.
    pub fn on_orchestrate(&mut self) -> (a: ProbeAction)
        requires
            old(self).stage == ProbeStage::AwaitOrchestrate,
            old(self).wf(),
        ensures
            final(self).wf(),
            final(self).site_key == old(self).site_key,
            final(self).href == old(self).href,
            final(self).branch == old(self).branch,
            final(self).iframe_url == old(self).iframe_url,
            final(self).iframe_status == old(self).iframe_status,
            final(self).options == old(self).options,
            final(self).fo_session == old(self).fo_session,
            ({
                let o: ChlOptView = old(self).options->0@;
                match old(self).fo_session {
                    Some(s) => if o.ch.len() > 0 && o.c_ray.len() > 0 {
                        (a matches ProbeAction::FetchFoBlob { url, referer } && url@ == fo_blob_url_spec(
                            o.zone,
                            old(self).branch@,
                            s@,
                            o.c_ray,
                            o.ch,
                        ) && referer@ == old(self).iframe_url@) && final(self).stage == ProbeStage::AwaitFoBlob
                    } else {
                        (a matches ProbeAction::SkipFoBlob { session } && session@ == s@) && final(self).stage
                            == ProbeStage::Done
                    },
                    None => final(self).stage == ProbeStage::Done && a is Finish,
                }
            }),
    {
        let action = match (&self.options, &self.fo_session) {
            (Some(o), Some(s)) => {
                if o.ch.as_str().unicode_len() > 0 && o.c_ray.as_str().unicode_len() > 0 {
                    ProbeAction::FetchFoBlob {
                        url: fo_blob_url(o.zone.as_str(), self.branch.as_str(), s.as_str(), o.c_ray.as_str(), o.ch.as_str()),
                        referer: to_string(self.iframe_url.as_str()),
                    }
                } else {
                    ProbeAction::SkipFoBlob { session: to_string(s.as_str()) }
                }
            },
            _ => ProbeAction::Finish,
        };
        self.stage = match action {
            ProbeAction::FetchFoBlob { .. } => ProbeStage::AwaitFoBlob,
            _ => ProbeStage::Done,
        };
        action
    }

    /// The `/fo/` answer: the probe is done.
    pub fn on_fo_blob(&mut self) -> (a: ProbeAction)
        requires
            old(self).stage == ProbeStage::AwaitFoBlob,
        ensures
            final(self).stage == ProbeStage::Done,
            final(self).site_key == old(self).site_key,
            final(self).href == old(self).href,
            final(self).branch == old(self).branch,
            final(self).iframe_url == old(self).iframe_url,
            final(self).iframe_status == old(self).iframe_status,
            final(self).options == old(self).options,
            final(self).fo_session == old(self).fo_session,
            a is Finish,
    {
        self.stage = ProbeStage::Done;
        ProbeAction::Finish
    }

    /// The iframe answered 200 and its `_cf_chl_opt` parsed.
    pub fn iframe_ok(&self) -> (r: bool)
        ensures
            r == (self.iframe_status == 200 && self.options is Some),
    {
        self.iframe_status == 200 && self.options.is_some()
    }

    /// Which step a failed probe stopped at; a good iframe now ends at the `/fo/` blob
    /// that replaced the orchestrate VM.
    pub fn next_failure(&self) -> (r: &'static str)
        ensures
            r@ == if self.iframe_status == 200 && self.options is Some {
                "orchestrate_replaced_by_fo_blob"@
            } else {
                "iframe"@
            },
    {
        if self.iframe_ok() {
            "orchestrate_replaced_by_fo_blob"
        } else {
            "iframe"
        }
    }
}

} // verus!
