use win_app_switcher::apps::{
    app_groups, group_by_key, load_icon_source, step_index, uses_shell_styling, AppKey, IconSource,
};
use win_app_switcher::manifest::{manifest_logo_path, xml_attr};
use win_app_switcher::pixels::{is_full_bleed, premultiply_bgra, round_premul_bgra_corners};

#[test]
fn grouping_preserves_z_order_of_groups_and_members() {
    let groups = group_by_key(vec![(1, "a"), (2, "b"), (3, "a"), (4, "c"), (5, "b")]);
    assert_eq!(
        groups,
        vec![("a", vec![1, 3]), ("b", vec![2, 5]), ("c", vec![4])]
    );
}

#[test]
fn grouping_empty_input() {
    assert!(group_by_key::<i32, &str>(vec![]).is_empty());
}

fn key(exe: &str, aumid: Option<&str>) -> AppKey {
    AppKey { exe: exe.to_string(), aumid: aumid.map(str::to_string) }
}

#[test]
fn pwas_split_from_browser_by_aumid() {
    // Two chrome.exe windows tagged with different PWA AUMIDs, plus a
    // plain browser window (no AUMID). Each PWA is its own group; the
    // plain window keys on the exe.
    let chatgpt = key("chrome.exe", Some("Chrome._crx_chatgpt"));
    let outlook = key("chrome.exe", Some("Chrome._crx_outlook"));
    let browser = key("chrome.exe", None);
    let groups = group_by_key(vec![
        (1, chatgpt.clone()),
        (2, outlook.clone()),
        (3, browser.clone()),
    ]);
    let ids: Vec<&str> = groups.iter().map(|(k, _)| k.id()).collect();
    assert_eq!(ids, vec!["Chrome._crx_chatgpt", "Chrome._crx_outlook", "chrome.exe"]);
    assert!(groups.iter().all(|(_, members)| members.len() == 1));
}

#[test]
fn same_aumid_windows_merge_across_exe() {
    // Same PWA identity groups its windows together; the exe field is
    // display-only and excluded from equality.
    let a = key("chrome.exe", Some("Chrome._crx_chatgpt"));
    let b = key("chrome.exe", Some("Chrome._crx_chatgpt"));
    let groups = group_by_key(vec![(1, a), (2, b)]);
    assert_eq!(groups.len(), 1);
    assert_eq!(groups[0].1, vec![1, 2]);
}

#[test]
fn plain_windows_group_by_exe() {
    // No AUMID: ordinary browsing stays one group per exe.
    let groups = group_by_key(vec![
        (1, key("chrome.exe", None)),
        (2, key("code.exe", None)),
        (3, key("chrome.exe", None)),
    ]);
    assert_eq!(groups.len(), 2);
    assert_eq!(groups[0].1, vec![1, 3]);
    assert_eq!(groups[1].1, vec![2]);
}

#[test]
fn app_key_equality_ignores_the_exe() {
    assert!(key("a.exe", Some("X")) == key("b.exe", Some("X")));
    // A key with an AUMID never equals one without, even when the AUMID
    // spells the other key's exe path.
    assert!(key("a.exe", None) != key("x.exe", Some("a.exe")));
    assert!(key("a.exe", None) == key("a.exe", None));
    assert!(key("a.exe", None) != key("b.exe", None));
    assert_eq!(key("a.exe", None).id(), "a.exe");
    assert_eq!(key("a.exe", Some("P")).id(), "P");
}

#[test]
fn app_groups_keep_first_key_and_z_order() {
    let groups = app_groups(vec![
        (10, key("first.exe", Some("App"))),
        (11, key("code.exe", None)),
        (12, key("second.exe", Some("App"))),
    ]);
    assert_eq!(groups.len(), 2);
    // The group is keyed by the first window seen.
    assert_eq!(groups[0].key.exe, "first.exe");
    assert_eq!(groups[0].windows, vec![10, 12]);
    assert_eq!(groups[1].windows, vec![11]);
    assert!(app_groups(vec![]).is_empty());
}

#[test]
fn icon_source_uses_apps_folder_for_aumids() {
    let plain = load_icon_source(&key("C:\\code.exe", None), Some("ignored".to_string()));
    assert_eq!(plain, IconSource { primary: "C:\\code.exe".to_string(), alternate: None });
    let packaged = load_icon_source(
        &key("C:\\quill.exe", Some("Quill_pzs8sxrjxfjjc!Quill")),
        Some("C:\\Assets\\Quill.png".to_string()),
    );
    assert_eq!(packaged.primary, "shell:AppsFolder\\Quill_pzs8sxrjxfjjc!Quill");
    assert_eq!(packaged.alternate.as_deref(), Some("C:\\Assets\\Quill.png"));
    assert!(uses_shell_styling(&packaged));
    assert!(!uses_shell_styling(&plain));
    assert!(!uses_shell_styling(&IconSource { primary: "shell:AppsFolder".to_string(), alternate: None }));
}

/// px×px premultiplied BGRA, `f(x, y) -> (b, g, r, a)`.
fn image(px: u32, f: impl Fn(u32, u32) -> (u8, u8, u8, u8)) -> Vec<u8> {
    let mut bits = Vec::with_capacity((px * px * 4) as usize);
    for y in 0..px {
        for x in 0..px {
            let (b, g, r, a) = f(x, y);
            bits.extend_from_slice(&[b, g, r, a]);
        }
    }
    bits
}

/// A dark disc on a transparent field.
fn disc(px: u32, soft: bool) -> Vec<u8> {
    let c = px as f32 / 2.0;
    let r = px as f32 / 3.0;
    image(px, |x, y| {
        let d = ((x as f32 + 0.5 - c).powi(2) + (y as f32 + 0.5 - c).powi(2)).sqrt();
        // A hard step at the radius, or a several-pixel ramp across it.
        let cover = if soft {
            ((r + 3.0 - d) / 6.0).clamp(0.0, 1.0)
        } else {
            f32::from(d <= r)
        };
        let a = (cover * 255.0).round() as u8;
        // Premultiplied dark ink: color scales with coverage.
        let ink = (cover * 40.0).round() as u8;
        (ink, ink, ink, a)
    })
}

#[test]
fn full_bleed_requires_an_opaque_border_all_the_way_round() {
    const PX: u32 = 16;
    assert!(is_full_bleed(&vec![255u8; (PX * PX * 4) as usize], PX));
    // A transparent margin anywhere along the ring disqualifies it.
    let mut margin = vec![255u8; (PX * PX * 4) as usize];
    margin[((3 * PX) as usize) * 4 + 3] = 0; // (0, 3)
    assert!(!is_full_bleed(&margin, PX));
    assert!(!is_full_bleed(&disc(PX, false), PX));
}

#[test]
fn full_bleed_edge_cases() {
    // Empty image, too short a buffer, and the threshold of 240.
    assert!(!is_full_bleed(&[], 0));
    assert!(!is_full_bleed(&vec![255u8; 15], 2));
    let mut bits = vec![255u8; 3 * 3 * 4];
    bits[3] = 240;
    assert!(is_full_bleed(&bits, 3));
    bits[3] = 239;
    assert!(!is_full_bleed(&bits, 3));
    // The center pixel is not on the ring.
    let mut hole = vec![255u8; 3 * 3 * 4];
    hole[(1 * 3 + 1) * 4 + 3] = 0;
    assert!(is_full_bleed(&hole, 3));
}

#[test]
fn rounded_background_mask_clears_only_corner_pixels() {
    let mut bits = vec![255u8; 8 * 8 * 4];
    round_premul_bgra_corners(&mut bits, 8, 2);

    for (x, y) in [(0, 0), (7, 0), (0, 7), (7, 7)] {
        assert_eq!(&bits[(y * 8 + x) * 4..][..4], &[0, 0, 0, 0]);
    }
    assert_eq!(&bits[(0 * 8 + 1) * 4..][..4], &[255, 255, 255, 255]);
    assert_eq!(&bits[(4 * 8 + 4) * 4..][..4], &[255, 255, 255, 255]);
}

#[test]
fn rounding_clamps_radius_and_is_idempotent() {
    // Radius 1 clears nothing (the corner cell's centre lies inside the circle).
    let mut one = vec![255u8; 4 * 4 * 4];
    round_premul_bgra_corners(&mut one, 4, 1);
    assert!(one.iter().all(|&b| b == 255));
    // An oversized radius is clamped to half the side.
    let mut big = vec![255u8; 4 * 4 * 4];
    let mut half = vec![255u8; 4 * 4 * 4];
    round_premul_bgra_corners(&mut big, 4, 100);
    round_premul_bgra_corners(&mut half, 4, 2);
    assert_eq!(big, half);
    let cleared = big.chunks(4).filter(|p| p == &[0, 0, 0, 0]).count();
    assert_eq!(cleared, 4);
    // Rounding twice changes nothing more.
    let once = big.clone();
    round_premul_bgra_corners(&mut big, 4, 2);
    assert_eq!(big, once);
    // A 16 px image with radius 4: the corner and its two neighbours go.
    let mut bits = vec![255u8; 16 * 16 * 4];
    round_premul_bgra_corners(&mut bits, 16, 4);
    let alpha = |x: usize, y: usize| bits[(y * 16 + x) * 4 + 3];
    assert_eq!(alpha(0, 0), 0);
    assert_eq!(alpha(1, 0), 0);
    assert_eq!(alpha(0, 1), 0);
    assert_eq!(alpha(1, 1), 255);
    assert_eq!(alpha(2, 0), 255);
    assert_eq!(alpha(15, 15), 0);
    assert_eq!(alpha(14, 15), 0);
}

#[test]
fn xml_attr_ignores_name_inside_an_attribute_value() {
    // "Id=bar" sits inside another attribute's value, preceded by a space:
    // only the real Id attribute may match.
    let tag = r#"<Application Other="foo Id=bar" Id="real">"#;
    assert_eq!(xml_attr(tag, "Id").as_deref(), Some("real"));
    assert_eq!(xml_attr(r#"<Application Other="foo Id=bar">"#, "Id"), None);
}

#[test]
fn xml_attr_requires_a_whole_key_match() {
    let tag = r#"<Application uap10:HostId="Hosted" Id="Quill">"#;
    assert_eq!(xml_attr(tag, "Id").as_deref(), Some("Quill"));
    assert_eq!(xml_attr(tag, "HostId"), None);
    assert_eq!(xml_attr(tag, "uap10:HostId").as_deref(), Some("Hosted"));
}

#[test]
fn xml_attr_continues_past_malformed_attributes() {
    // Unquoted value, valueless attribute and a stray '=' each skip ahead
    // rather than abandoning the scan.
    let tag = r#"<Application Broken=bar Flag Other = = Id="Quill">"#;
    assert_eq!(xml_attr(tag, "Id").as_deref(), Some("Quill"));
    assert_eq!(xml_attr(tag, "Broken").as_deref(), Some("bar"));
}

#[test]
fn xml_attr_handles_quoting_and_tag_shapes() {
    // Single quotes, a self-closing tag and a leading '<' that the
    // VisualElements caller strips off before slicing.
    let tag = r"uap:VisualElements Square150x150Logo='Assets\Quill.png' />";
    assert_eq!(
        xml_attr(tag, "Square150x150Logo").as_deref(),
        Some(r"Assets\Quill.png")
    );
    // An unterminated quote leaves nothing parseable behind it.
    assert_eq!(xml_attr(r#"<Application Id="Quill>"#, "Id"), None);
    // A tag with no attributes at all.
    assert_eq!(xml_attr("<Applications>", "Id"), None);
}

#[test]
fn xml_attr_edge_cases() {
    // Empty unquoted value, non-ASCII whitespace and text, and a value
    // running to the end of an unclosed tag.
    assert_eq!(xml_attr("<a k= >", "k").as_deref(), Some(""));
    assert_eq!(xml_attr("<a\u{3000}k=\"ä\"", "k").as_deref(), Some("ä"));
    assert_eq!(xml_attr("<a k=v", "k").as_deref(), Some("v"));
    assert_eq!(xml_attr("", "k"), None);
    assert_eq!(xml_attr("<a/>", "a"), None);
    assert_eq!(xml_attr("<a x='1' k=\"2\"/>", "k").as_deref(), Some("2"));
}

#[test]
fn manifest_logo_selects_matching_packaged_application() {
    let manifest = r#"
        <Package xmlns:uap="http://schemas.microsoft.com/appx/manifest/uap/windows10">
          <Applications>
            <Application Id="Other">
              <uap:VisualElements Square150x150Logo="Assets\Other.png" />
            </Application>
            <Application uap10:HostId="Hosted" Id="Quill">
              <uap:VisualElements
                Square44x44Logo="Assets\Small.png"
                Square150x150Logo="Assets\Quill.png" />
            </Application>
          </Applications>
        </Package>
    "#;

    assert_eq!(
        manifest_logo_path(manifest, "Package_family!Other"),
        Some(r"Assets\Other.png".into())
    );
    assert_eq!(
        manifest_logo_path(manifest, "Quill_pzs8sxrjxfjjc!Quill"),
        Some(r"Assets\Quill.png".into())
    );
}

#[test]
fn manifest_logo_rejects_non_packaged_and_unknown_apps() {
    let manifest = r#"<Application Id="Quill"><uap:VisualElements Square150x150Logo="Assets\Quill.png" /></Application>"#;

    assert_eq!(manifest_logo_path(manifest, "not-an-aumid"), None);
    assert_eq!(
        manifest_logo_path(manifest, "Quill_pzs8sxrjxfjjc!Other"),
        None
    );
}

#[test]
fn manifest_logo_skips_self_closing_and_unclosed_applications() {
    let self_closing = r#"<Application Id="A" /><Application Id="A"><VisualElements Square150x150Logo="a.png"></Application>"#;
    assert_eq!(manifest_logo_path(self_closing, "P!A").as_deref(), Some("a.png"));
    let unclosed = r#"<Application Id="A"><VisualElements Square150x150Logo="a.png">"#;
    assert_eq!(manifest_logo_path(unclosed, "P!A"), None);
    let no_visual = r#"<Application Id="A"></Application><Application Id="A"><VisualElements Square150x150Logo="b.png"></Application>"#;
    // The first matching application decides, even without VisualElements.
    assert_eq!(manifest_logo_path(no_visual, "P!A"), None);
    // Everything after the first '!' is the app id.
    let bang = r#"<Application Id="A!B"><VisualElements Square150x150Logo="c.png"></Application>"#;
    assert_eq!(manifest_logo_path(bang, "P!A!B").as_deref(), Some("c.png"));
}

#[test]
fn premultiply_corrects_straight_alpha() {
    // A straight-alpha edge pixel: white antialiasing under 50% alpha.
    // B,G,R (255) exceed alpha (128), which is impossible for premultiplied
    // data, so the whole image is premultiplied down to 128.
    let mut bits = vec![255, 255, 255, 128];
    premultiply_bgra(&mut bits);
    assert_eq!(bits, vec![128, 128, 128, 128]);
}

#[test]
fn premultiply_leaves_premultiplied_untouched() {
    // Already premultiplied (every channel <= alpha): a no-op.
    let orig = vec![10, 20, 30, 40, 0, 0, 0, 0, 200, 200, 200, 255];
    let mut bits = orig.clone();
    premultiply_bgra(&mut bits);
    assert_eq!(bits, orig);
}

#[test]
fn premultiply_rounds_and_zeroes_transparent() {
    // Fully transparent straight pixel drops its color; a partial pixel
    // rounds to nearest. The first pixel (color > alpha) marks it straight.
    let mut bits = vec![255, 255, 255, 0, 100, 200, 50, 128];
    premultiply_bgra(&mut bits);
    // (100*128+127)/255 = 50, (200*128+127)/255 = 100, (50*128+127)/255 = 25.
    assert_eq!(bits, vec![0, 0, 0, 0, 50, 100, 25, 128]);
}

#[test]
fn premultiply_is_idempotent_and_ignores_partial_pixels() {
    // A trailing partial pixel is neither inspected nor changed.
    let mut bits = vec![10, 10, 10, 20, 255, 255];
    premultiply_bgra(&mut bits);
    assert_eq!(bits, vec![10, 10, 10, 20, 255, 255]);
    let mut straight = vec![200, 100, 50, 100, 7, 9, 255, 255];
    premultiply_bgra(&mut straight);
    let once = straight.clone();
    premultiply_bgra(&mut straight);
    assert_eq!(straight, once);
    assert!(once.chunks(4).all(|p| p[0] <= p[3] && p[1] <= p[3] && p[2] <= p[3]));
}

#[test]
fn step_index_wraps_both_ways() {
    assert_eq!(step_index(3, 0, true), 1);
    assert_eq!(step_index(3, 2, true), 0);
    assert_eq!(step_index(3, 0, false), 2);
    assert_eq!(step_index(3, 1, false), 0);
    assert_eq!(step_index(1, 0, true), 0);
    assert_eq!(step_index(0, 0, true), 0, "empty list must not divide by zero");
}

#[test]
fn step_back_undoes_step_forward() {
    for len in 1..6 {
        for i in 0..len {
            assert_eq!(step_index(len, step_index(len, i, true), false), i);
            assert_eq!(step_index(len, step_index(len, i, false), true), i);
        }
    }
}
