use mpx_loader::{JavaScriptSource, MpxPartialLoader};
use oxc_span::SourceType;

fn parse_all(source_text: &str) -> Vec<JavaScriptSource<'_>> {
    MpxPartialLoader::new(source_text).parse()
}

fn bodies<'a>(sources: &[JavaScriptSource<'a>]) -> Vec<&'a str> {
    sources.iter().map(|source| source.source_text).collect()
}

#[test]
fn two_adjacent_scripts() {
    let sources = parse_all("<script>a</script><script>b</script>");
    assert_eq!(bodies(&sources), vec!["a", "b"]);
    assert_eq!(sources[0].start, 8);
    assert_eq!(sources[1].start, 26);
}

#[test]
fn json_script_is_extracted_as_it_stands() {
    let sources = parse_all(r#"<script type="application/json">{"a":1}</script>"#);
    assert_eq!(bodies(&sources), vec![r#"{"a":1}"#]);
    assert_eq!(sources[0].source_type, SourceType::mjs());
    assert!(!sources[0].source_type.is_jsx());
}

#[test]
fn json_script_by_name_is_extracted_as_it_stands() {
    let sources = parse_all(r#"<script name="json">{"a":[1,2]}</script>"#);
    assert_eq!(bodies(&sources), vec![r#"{"a":[1,2]}"#]);
    assert_eq!(sources[0].source_type, SourceType::mjs());
    assert_eq!(sources[0].start, 20);
}

#[test]
fn script_view_in_template_is_no_script() {
    let sources = parse_all("<template><script-view /></template><script>a</script>");
    assert_eq!(bodies(&sources), vec!["a"]);
    assert_eq!(sources[0].start, 44);
}

#[test]
fn script_in_comment_is_skipped() {
    let sources = parse_all("<!-- <script>a</script> --><script>b</script>");
    assert_eq!(bodies(&sources), vec!["b"]);
    assert_eq!(sources[0].start, 35);
}

#[test]
fn one_entry_for_each_tag_in_document_order() {
    let source_text = "<view/>\n<script>one</script>\n<p>text</p>\n<script lang=\"ts\">two</script>\n<script lang='tsx'>three</script>\n";
    let sources = parse_all(source_text);
    assert_eq!(bodies(&sources), vec!["one", "two", "three"]);
    assert_eq!(sources[0].source_type, SourceType::mjs());
    assert_eq!(sources[1].source_type, SourceType::ts());
    assert_eq!(sources[2].source_type, SourceType::tsx());
    assert!(sources[0].start < sources[1].start);
    assert!(sources[1].start < sources[2].start);
}

#[test]
fn start_is_the_length_of_the_prefix_that_ends_with_the_tag() {
    let source_text = "<t>é</t><script a='>'>x</script>日<script\tlang=ts >y</script><script >z</script>";
    let sources = parse_all(source_text);
    assert_eq!(bodies(&sources), vec!["x", "z"]);
    for source in &sources {
        let prefix = &source_text[..source.start];
        assert!(prefix.ends_with('>'));
        assert_eq!(prefix.len(), source.start);
        assert_eq!(&source_text[source.start..source.start + source.source_text.len()], source.source_text);
        assert!(source_text[source.start + source.source_text.len()..].starts_with("</script>"));
    }
    assert_eq!(sources[0].start, 23);
}

#[test]
fn comment_hides_every_script_in_it() {
    let sources = parse_all("<!-- <script>a</script> <script>b</script> --> <script>c</script>");
    assert_eq!(bodies(&sources), vec!["c"]);
}

#[test]
fn closed_comment_hides_nothing_behind_it() {
    let sources = parse_all("<!-- x --><script>a</script><!-- y -->");
    assert_eq!(bodies(&sources), vec!["a"]);
    assert_eq!(sources[0].start, 18);
}

#[test]
fn comment_without_an_end_hides_nothing() {
    let sources = parse_all("<!-- <script>a</script>");
    assert_eq!(bodies(&sources), vec!["a"]);
}

#[test]
fn last_comment_opening_decides() {
    let sources = parse_all("<!-- a --> <!-- <script>a</script> --><script>b</script>");
    assert_eq!(bodies(&sources), vec!["b"]);
}

#[test]
fn comment_end_inside_a_body_ends_the_comment_before_it() {
    let sources = parse_all("<!-- --><script>a --> b</script><script>c</script>");
    assert_eq!(bodies(&sources), vec!["a --> b", "c"]);
}

#[test]
fn longer_tag_names_are_no_scripts() {
    assert!(parse_all("<scripts>a</script>").is_empty());
    assert!(parse_all("<script-view>a</script>").is_empty());
    assert!(parse_all("<script\n>a</script>").is_empty());
    assert!(parse_all("<script\tlang='ts'>a</script>").is_empty());
    assert!(parse_all("<script/>a</script>").is_empty());
}

#[test]
fn longer_tag_name_does_not_hide_the_next_script() {
    let sources = parse_all("<script-view><script>a</script>");
    assert_eq!(bodies(&sources), vec!["a"]);
    assert_eq!(sources[0].start, 21);
}

#[test]
fn script_at_the_end_of_the_document() {
    assert!(parse_all("<script").is_empty());
    assert!(parse_all("<template/><script").is_empty());
    assert!(parse_all("<script>").is_empty());
    assert!(parse_all("<script ").is_empty());
}

#[test]
fn greater_than_in_quotes_does_not_close_the_tag() {
    let sources = parse_all("<script description='PI > 5'>a</script>");
    assert_eq!(bodies(&sources), vec!["a"]);
    assert_eq!(sources[0].start, 29);
    let sources = parse_all("<script description=\"PI > 5\">a</script>");
    assert_eq!(bodies(&sources), vec!["a"]);
    let sources = parse_all("<script a=\"'>\" b='\">'>a</script>");
    assert_eq!(bodies(&sources), vec!["a"]);
    assert_eq!(sources[0].start, 22);
}

#[test]
fn backslash_does_not_escape_a_quote() {
    let sources = parse_all(r#"<script a="\">b</script>"#);
    assert_eq!(bodies(&sources), vec!["b"]);
}

#[test]
fn open_quote_leaves_the_tag_unclosed() {
    assert!(parse_all("<script a='>b</script><script>c</script>").is_empty());
    assert!(parse_all("<script lang=\"ts>a</script>").is_empty());
    assert!(parse_all("<script lang='ts\">a</script>").is_empty());
}

#[test]
fn absent_lang_is_a_plain_module() {
    let sources = parse_all("<script>a</script>");
    assert_eq!(sources[0].source_type, SourceType::mjs());
    assert!(sources[0].source_type.is_module());
    assert!(sources[0].source_type.is_javascript());
    assert!(!sources[0].source_type.is_jsx());
}

#[test]
fn malformed_lang_is_a_plain_module() {
    for source_text in [
        "<script lang>a</script>",
        "<script lang ts>a</script>",
        "<script lang=>a</script>",
        "<script lang= >a</script>",
    ] {
        let sources = parse_all(source_text);
        assert_eq!(sources.len(), 1, "{source_text}");
        assert_eq!(sources[0].source_type, SourceType::mjs(), "{source_text}");
        assert_eq!(sources[0].source_text, "a", "{source_text}");
    }
}

#[test]
fn jsx_variant_goes_by_the_letter_x() {
    let cases = [
        ("js", false),
        ("mjs", false),
        ("cjs", false),
        ("ts", false),
        ("mts", false),
        ("cts", false),
        ("jsx", true),
        ("tsx", true),
    ];
    for (lang, jsx) in cases {
        let source_text = format!("<script lang=\"{lang}\">a</script>");
        let sources = parse_all(&source_text);
        assert_eq!(sources.len(), 1, "{lang}");
        assert_eq!(sources[0].source_type.is_jsx(), jsx, "{lang}");
    }
    assert_eq!(parse_all("<script lang='jsx'>a</script>")[0].source_type, SourceType::jsx());
    assert_eq!(parse_all("<script lang='cts'>a</script>")[0].source_type, SourceType::cjs().with_typescript(true));
}

#[test]
fn unknown_lang_drops_the_block_only() {
    assert!(parse_all("<script lang=\"xxx\">a</script>").is_empty());
    assert!(parse_all("<script lang=\"\">a</script>").is_empty());
    assert!(parse_all("<script lang=\"TS\">a</script>").is_empty());
    let sources = parse_all("<script lang=\"xxx\">a</script><script>b</script>");
    assert_eq!(bodies(&sources), vec!["b"]);
    assert_eq!(sources[0].start, 37);
}

#[test]
fn scan_resumes_behind_the_tag_of_an_unknown_lang() {
    let sources = parse_all("<script lang=\"xxx\"><script>b</script>");
    assert_eq!(bodies(&sources), vec!["b"]);
    let sources = parse_all("<script lang='xxx' a='<script >'>b</script>");
    assert!(sources.is_empty());
}

#[test]
fn unterminated_script_stops_the_scan() {
    assert!(parse_all("<script>a").is_empty());
    assert!(parse_all("<script>a</script").is_empty());
    let sources = parse_all("<script>a</script><script>b");
    assert_eq!(bodies(&sources), vec!["a"]);
    let sources = parse_all("<script>a</script><script lang='ts'");
    assert_eq!(bodies(&sources), vec!["a"]);
}

#[test]
fn body_ends_at_the_first_closing_marker() {
    let sources = parse_all("<script>let s = '</script>';</script>");
    assert_eq!(bodies(&sources), vec!["let s = '"]);
    let sources = parse_all("<script>a<script>b</script>c</script>");
    assert_eq!(bodies(&sources), vec!["a<script>b"]);
}

#[test]
fn empty_body() {
    let sources = parse_all("<script></script>");
    assert_eq!(bodies(&sources), vec![""]);
    assert_eq!(sources[0].start, 8);
}

#[test]
fn empty_document() {
    assert!(parse_all("").is_empty());
}

#[test]
fn multi_byte_text_is_kept_whole() {
    let source_text = "<p>日历</p><script title=\"平铺\" lang=\"ts\">let 日历 = '2000年';</script>é";
    let sources = parse_all(source_text);
    assert_eq!(bodies(&sources), vec!["let 日历 = '2000年';"]);
    assert_eq!(sources[0].source_type, SourceType::ts());
    assert_eq!(sources[0].start, 46);
    assert_eq!(&source_text[46..46 + sources[0].source_text.len()], sources[0].source_text);
}

#[test]
fn parse_script_moves_the_pointer() {
    let loader = MpxPartialLoader::new("<script>a</script> <script-x> <script>b</script> <script>c");
    let mut pointer = 0;
    let first = loader.parse_script(&mut pointer).unwrap();
    assert_eq!(first.source_text, "a");
    assert_eq!(first.start, 8);
    assert_eq!(pointer, 18);
    let second = loader.parse_script(&mut pointer).unwrap();
    assert_eq!(second.source_text, "b");
    assert_eq!(second.start, 38);
    assert_eq!(pointer, 48);
    assert!(loader.parse_script(&mut pointer).is_none());
    assert_eq!(pointer, 57);
    assert!(loader.parse_script(&mut pointer).is_none());
    assert_eq!(pointer, 57);
}

#[test]
fn parse_script_stops_where_the_scan_gives_up() {
    let loader = MpxPartialLoader::new("<p/><script a='");
    let mut pointer = 0;
    assert!(loader.parse_script(&mut pointer).is_none());
    assert_eq!(pointer, 11);
    let loader = MpxPartialLoader::new("<p/>");
    let mut pointer = 2;
    assert!(loader.parse_script(&mut pointer).is_none());
    assert_eq!(pointer, 2);
}

#[test]
fn parse_scripts_is_what_parse_returns() {
    let source_text = "<script>a</script><script lang='ts'>b</script>";
    let loader = MpxPartialLoader::new(source_text);
    let sources = loader.parse_scripts();
    assert_eq!(bodies(&sources), bodies(&parse_all(source_text)));
    assert_eq!(sources[1].source_type, SourceType::ts());
}
