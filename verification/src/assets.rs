//! The scripts injected into the Codex app window for the pet's real-mouse mode.
use base64::Engine;
use vstd::prelude::*;

use crate::text::{append_str, decimal, string_from};

verus! {

/// The part of the pet scripts that tells whether the pet uses the v2 sprite sheet.
pub const PET_V2_SPRITE_DETECTION_SCRIPT: &'static str = r#"
  const isV2Sprite = async (mascot) => {
    if (!mascot) return false;
    if (Array.from(mascot.querySelectorAll("img")).some((image) =>
      image.naturalWidth === 1536 && image.naturalHeight === 2288
    )) return true;
    for (const element of [mascot, ...mascot.querySelectorAll("*")]) {
      const background = getComputedStyle(element).backgroundImage || "";
      const match = background.match(/url\(["']?([^"')]+)/i);
      if (!match) continue;
      const source = match[1];
      const cacheKey = "__codexPlusPetV2SpriteProbe";
      let probe = window[cacheKey];
      if (!probe || probe.source !== source) {
        probe = { source, valid: false, pending: true };
        probe.promise = (async () => {
          try {
            const image = new Image();
            image.src = source;
            await image.decode();
            return image.naturalWidth === 1536 && image.naturalHeight === 2288;
          } catch {
            return false;
          }
        })().then((valid) => {
          probe.valid = valid;
          probe.pending = false;
          return valid;
        });
        window[cacheKey] = probe;
      }
      const wasPending = probe.pending;
      const valid = wasPending ? await probe.promise : probe.valid;
      if (wasPending) {
        const currentBackground = getComputedStyle(element).backgroundImage || "";
        const currentMatch = currentBackground.match(/url\(["']?([^"')]+)/i);
        if (currentMatch?.[1] !== source) continue;
      }
      if (window[cacheKey] === probe && valid) return true;
    }
    return false;
  };
"#;

/// The start of the capability probe.
pub const PET_PROBE_HEAD: &'static str = r#"
(async () => {
  const mascot = document.querySelector('[data-avatar-mascot="true"]');
"#;

/// The end of the capability probe.
pub const PET_PROBE_TAIL: &'static str = r#"
  if (!await isV2Sprite(mascot)) return false;
  const urls = [
    ...Array.from(document.scripts || []).map((script) => script.src),
    ...Array.from(document.querySelectorAll("link[href]") || []).map((link) => link.href),
    ...performance.getEntriesByType("resource").map((entry) => entry.name),
  ].filter((url) => url && url.includes("/assets/") && url.split("?")[0].endsWith(".js"));
  let dispatcherUrl = urls.find((url) => url.includes("vscode-api-"));
  if (!dispatcherUrl) {
    for (const url of urls) {
      try {
        const source = await fetch(url).then((response) => response.ok ? response.text() : "");
        const match = source.match(/["'](\.\/(?:assets\/)?vscode-api-[^"']+\.js)["']/);
        if (match) {
          dispatcherUrl = new URL(match[1], url).href;
          break;
        }
      } catch {
      }
    }
  }
  if (!dispatcherUrl) return false;
  try {
    const module = await import(dispatcherUrl);
    return Object.values(module || {}).some((value) => value
      && typeof value.dispatchHostMessage === "function"
      && typeof value.subscribe === "function");
  } catch {
    return false;
  }
})()
"#;

/// The start of the pointer update script.
pub const PET_UPDATE_HEAD: &'static str = r#"(async () => {
  const mascot = document.querySelector('[data-avatar-mascot="true"]');
"#;

/// The text of the pointer update script before the horizontal coordinate.
pub const PET_UPDATE_BEFORE_X: &'static str = r#"
  return await isV2Sprite(mascot)
    && window.__codexPlusPetRealMouseLook?.updateScreenPoint?.({ x: "#;

/// The text of the pointer update script between the coordinates.
pub const PET_UPDATE_BETWEEN: &'static str = r#", y: "#;

/// The end of the pointer update script.
pub const PET_UPDATE_TAIL: &'static str = r#" }) === true;
})()"#;

/// The script that stops the pet's real-mouse mode.
pub const PET_STOP_SCRIPT: &'static str = "window.__codexPlusPetRealMouseLook?.stop?.();";

/// The script that tells whether the pet can follow the real mouse.
pub fn pet_real_mouse_capability_probe_script() -> (r: String)
    ensures
        r@ == PET_PROBE_HEAD@ + PET_V2_SPRITE_DETECTION_SCRIPT@ + PET_PROBE_TAIL@,
{
    let mut v: Vec<char> = Vec::new();
    append_str(&mut v, PET_PROBE_HEAD);
    append_str(&mut v, PET_V2_SPRITE_DETECTION_SCRIPT);
    append_str(&mut v, PET_PROBE_TAIL);
    assert(v@ =~= Seq::<char>::empty() + PET_PROBE_HEAD@ + PET_V2_SPRITE_DETECTION_SCRIPT@ + PET_PROBE_TAIL@);
    string_from(v.as_slice())
}

/// An integer in decimal, with a minus sign when negative.
pub open spec fn signed_decimal(x: int) -> Seq<char> {
    if x < 0 {
        seq!['-'] + decimal((-x) as nat)
    } else {
        decimal(x as nat)
    }
}

/// `x` in decimal (what `x.to_string()` prints).
pub fn signed_decimal_string(x: i32) -> (r: String)
    ensures
        r@ == signed_decimal(x as int),
{
    if x < 0 {
        let m: u64 = (0i64 - (x as i64)) as u64;
        let mut v: Vec<char> = vec!['-'];
        let d = crate::text::decimal_chars(m);
        let mut i: usize = 0;
        while i < d.len()
            invariant
                i <= d@.len(),
                v@ == seq!['-'] + d@.take(i as int),
            decreases d@.len() - i,
        {
            v.push(d[i]);
            assert(d@.take(i as int + 1) =~= d@.take(i as int).push(d@[i as int]));
            i = i + 1;
        }
        assert(d@.take(d@.len() as int) =~= d@);
        string_from(v.as_slice())
    } else {
        crate::text::decimal_string(x as u64)
    }
}

/// The script that points the pet's eyes at screen point (`x`, `y`).
pub fn pet_real_mouse_update_script(x: i32, y: i32) -> (r: String)
    ensures
        r@ == PET_UPDATE_HEAD@ + PET_V2_SPRITE_DETECTION_SCRIPT@ + PET_UPDATE_BEFORE_X@ + signed_decimal(x as int)
            + PET_UPDATE_BETWEEN@ + signed_decimal(y as int) + PET_UPDATE_TAIL@,
{
    let xs = signed_decimal_string(x);
    let ys = signed_decimal_string(y);
    let mut v: Vec<char> = Vec::new();
    append_str(&mut v, PET_UPDATE_HEAD);
    append_str(&mut v, PET_V2_SPRITE_DETECTION_SCRIPT);
    append_str(&mut v, PET_UPDATE_BEFORE_X);
    append_str(&mut v, xs.as_str());
    append_str(&mut v, PET_UPDATE_BETWEEN);
    append_str(&mut v, ys.as_str());
    append_str(&mut v, PET_UPDATE_TAIL);
    assert(v@ =~= Seq::<char>::empty() + PET_UPDATE_HEAD@ + PET_V2_SPRITE_DETECTION_SCRIPT@ + PET_UPDATE_BEFORE_X@
        + signed_decimal(x as int) + PET_UPDATE_BETWEEN@ + signed_decimal(y as int) + PET_UPDATE_TAIL@);
    string_from(v.as_slice())
}

/// The script that stops the pet's real-mouse mode.
pub fn pet_real_mouse_stop_script() -> (r: &'static str)
    ensures
        r@ == PET_STOP_SCRIPT@,
{
    PET_STOP_SCRIPT
}

} // verus!

verus! {

/// The extension of a file path: the text after the last `.` of its last
/// component, unless that component starts with its only `.` or has none.
pub open spec fn path_extension(path: Seq<char>) -> Option<Seq<char>> {
    let name = crate::text::split_by(path, |c: char| c == '/' || c == '\\').last();
    match last_dot(name) {
        Some(i) => if i > 0 { Some(name.skip(i + 1)) } else { None },
        None => None,
    }
}

/// Position of the last `.` in `s`.
pub open spec fn last_dot(s: Seq<char>) -> Option<int>
    decreases s.len(),
{
    if s.len() == 0 {
        None
    } else if s.last() == '.' {
        Some(s.len() - 1)
    } else {
        last_dot(s.drop_last())
    }
}

/// The MIME type of an image, by its file extension in any ASCII case.
pub open spec fn image_type_spec(path: Seq<char>) -> Option<Seq<char>> {
    match path_extension(path) {
        Some(e) => {
            let l = crate::text::lower(e);
            if l == "png"@ {
                Some("image/png"@)
            } else if l == "jpg"@ || l == "jpeg"@ {
                Some("image/jpeg"@)
            } else if l == "webp"@ {
                Some("image/webp"@)
            } else if l == "gif"@ {
                Some("image/gif"@)
            } else if l == "bmp"@ {
                Some("image/bmp"@)
            } else {
                None
            }
        },
        None => None,
    }
}

/// The MIME type of an image file, from its extension.
pub fn image_content_type(path: &str) -> (r: Option<&'static str>)
    ensures
        match r {
            Some(t) => image_type_spec(path@) == Some(t@),
            None => image_type_spec(path@) is None,
        },
{
    let v = crate::text::str_chars(path);
    let seps = vec!['/', '\\'];
    let parts = crate::text::split_any(v.as_slice(), seps.as_slice());
    assert(forall|c: char| (seps@.contains(c)) == (c == '/' || c == '\\')) by {
        assert forall|c: char| seps@.contains(c) == (c == '/' || c == '\\') by {
            if c == '/' {
                assert(seps@[0] == c);
            }
            if c == '\\' {
                assert(seps@[1] == c);
            }
        }
    }
    assert((|c: char| seps@.contains(c)) =~= (|c: char| c == '/' || c == '\\'));
    let ghost rs = crate::text::rows(parts@);
    proof {
        crate::text::lemma_split_nonempty(v@, |c: char| c == '/' || c == '\\');
    }
    let name = &parts[parts.len() - 1];
    assert(rs.last() == name@);
    let mut k: usize = name.len();
    assert(name@.take(k as int) =~= name@);
    while k > 0 && name[k - 1] != '.'
        invariant
            k <= name@.len(),
            last_dot(name@.take(k as int)) == last_dot(name@),
        decreases k,
    {
        assert(name@.take(k as int).drop_last() =~= name@.take(k - 1));
        k = k - 1;
    }
    if k == 0 {
        return None;
    }
    let dot = k - 1;
    assert(last_dot(name@) == Some(dot as int));
    if dot == 0 {
        return None;
    }
    let ext = crate::text::slice_chars(name.as_slice(), dot + 1, name.len());
    assert(ext@ =~= name@.skip(dot + 1));
    let l = crate::text::string_from(crate::text::lower_chars(ext.as_slice()).as_slice());
    let s = l.as_str();
    if crate::text::str_eq(s, "png") {
        Some("image/png")
    } else if crate::text::str_eq(s, "jpg") || crate::text::str_eq(s, "jpeg") {
        Some("image/jpeg")
    } else if crate::text::str_eq(s, "webp") {
        Some("image/webp")
    } else if crate::text::str_eq(s, "gif") {
        Some("image/gif")
    } else if crate::text::str_eq(s, "bmp") {
        Some("image/bmp")
    } else {
        None
    }
}


/// `b` is `a` with the image overlay settings back at their defaults and
/// everything else kept.
pub open spec fn overlay_reset(a: crate::settings::BackendSettings, b: crate::settings::BackendSettings) -> bool {
    &&& !b.codex_app_image_overlay_enabled
    &&& b.codex_app_image_overlay_path@ == Seq::<char>::empty()
    &&& b.codex_app_image_overlay_opacity == 35
    &&& b.codex_app_image_overlay_fit_mode@ == "fit"@
    &&& b.relay_profiles == a.relay_profiles
    &&& b.aggregate_relay_profiles == a.aggregate_relay_profiles
    &&& b.active_relay_id == a.active_relay_id
    &&& b.active_aggregate_relay_id == a.active_aggregate_relay_id
    &&& b.relay_common_config_contents == a.relay_common_config_contents
    &&& b.relay_context_config_contents == a.relay_context_config_contents
    &&& b.provider_sync_saved_providers == a.provider_sync_saved_providers
    &&& b.provider_sync_manual_providers == a.provider_sync_manual_providers
    &&& b.provider_sync_last_selected_provider == a.provider_sync_last_selected_provider
    &&& b.relay_test_model == a.relay_test_model
}

/// Puts the image overlay settings back to their defaults, keeping the
/// providers and every other setting.
pub fn reset_image_overlay_settings(settings: &mut crate::settings::BackendSettings)
    ensures
        overlay_reset(*old(settings), *final(settings)),
{
    let defaults = crate::settings::BackendSettings::default();
    settings.codex_app_image_overlay_enabled = defaults.codex_app_image_overlay_enabled;
    settings.codex_app_image_overlay_path = defaults.codex_app_image_overlay_path;
    settings.codex_app_image_overlay_opacity = defaults.codex_app_image_overlay_opacity;
    settings.codex_app_image_overlay_fit_mode = defaults.codex_app_image_overlay_fit_mode;
}

/// What the image overlay shows, before its image file is read: whether an
/// image is wanted (the overlay is on and names a file), the file, the
/// opacity in percent (kept within 1 to 100), the fit mode, and the URL the
/// helper serves the image at.
#[derive(Debug, Clone)]
pub struct ImageOverlayPlan {
    pub wants_image: bool,
    pub path: String,
    pub opacity_percent: u32,
    pub fit_mode: String,
    pub image_url: String,
}

/// The overlay for the helper listening on `helper_port`.
pub fn image_overlay_plan(helper_port: u16, settings: &crate::settings::BackendSettings) -> (r: ImageOverlayPlan)
    ensures
        r.path@ == crate::text::trim(settings.codex_app_image_overlay_path@),
        r.wants_image == (settings.codex_app_image_overlay_enabled && crate::text::trim(
            settings.codex_app_image_overlay_path@,
        ).len() > 0),
        r.opacity_percent == (if settings.codex_app_image_overlay_opacity < 1 {
            1
        } else if settings.codex_app_image_overlay_opacity > 100 {
            100
        } else {
            settings.codex_app_image_overlay_opacity
        }),
        r.fit_mode@ == settings.codex_app_image_overlay_fit_mode@,
        r.image_url@ == (if r.wants_image {
            "http://127.0.0.1:"@ + decimal(helper_port as nat) + "/overlay/image"@
        } else {
            Seq::<char>::empty()
        }),
{
    let path = crate::text::trim_str(settings.codex_app_image_overlay_path.as_str());
    let wants_image = settings.codex_app_image_overlay_enabled && !path.as_str().is_empty();
    let o = settings.codex_app_image_overlay_opacity;
    let opacity_percent = if o < 1 {
        1
    } else if o > 100 {
        100
    } else {
        o
    };
    let image_url = if wants_image {
        let p = crate::text::decimal_string(helper_port as u64);
        crate::text::concat3("http://127.0.0.1:", p.as_str(), "/overlay/image")
    } else {
        String::new()
    };
    ImageOverlayPlan {
        wants_image,
        path,
        opacity_percent,
        fit_mode: crate::text::owned(settings.codex_app_image_overlay_fit_mode.as_str()),
        image_url,
    }
}


/// What the `base64` standard engine writes for `bytes`: RFC 4648 base64
/// with the standard alphabet and `=` padding.
pub open spec fn base64_standard_encode(bytes: Seq<u8>) -> Seq<char> {
    crate::text::base64_spec(bytes, false, true)
}

/// `base64::engine::general_purpose::STANDARD.encode`: the crate writes RFC
/// 4648 base64 with the standard alphabet and padding.
#[verifier::external_body]
fn encode_standard(bytes: &[u8]) -> (r: String)
    ensures
        r@ == base64_standard_encode(bytes@),
{
    base64::engine::general_purpose::STANDARD.encode(bytes)
}

/// A `data:` URI of an image: its MIME type and its bytes in base64.
pub fn image_data_uri(mime_type: &str, bytes: &[u8]) -> (r: String)
    ensures
        r@ == "data:"@ + mime_type@ + ";base64,"@ + base64_standard_encode(bytes@),
{
    let encoded = encode_standard(bytes);
    let head = crate::text::concat3("data:", mime_type, ";base64,");
    crate::text::concat2(head.as_str(), encoded.as_str())
}

/// The `data:` URI of an image file whose path is `path` and whose bytes
/// are `bytes`: `None` when the extension names no image type.
pub fn image_file_data_uri(path: &str, bytes: &[u8]) -> (r: Option<String>)
    ensures
        match image_type_spec(path@) {
            Some(t) => r matches Some(u) && u@ == "data:"@ + t + ";base64,"@ + base64_standard_encode(bytes@),
            None => r is None,
        },
{
    match image_content_type(path) {
        Some(t) => Some(image_data_uri(t, bytes)),
        None => None,
    }
}

} // verus!
