use thu_learn_cli::html::{decode, html_attr, is_block_html_tag, strip_html};

#[test]
fn strip_html_basic() {
    assert_eq!(strip_html("&lt;p&gt;同学们好&lt;/p&gt;"), "同学们好");
}

#[test]
fn strip_html_curly_quotes_and_whitespace() {
    assert_eq!(
        strip_html("&lt;p&gt;a&lt;/p&gt;  &lt;p&gt;b&lt;/p&gt;"),
        "a\n\nb"
    );
    let q = strip_html("&ldquo;OJ&rdquo;");
    assert!(q.contains('“') && q.contains('”'));
}

#[test]
fn strip_html_preserves_announcement_structure_and_links() {
    let html = [
        "&lt;p&gt;各位同学好，本课程计划分组开展Project性能优化。&lt;/p&gt;",
        "&lt;p&gt;每个仓库内包含介绍基本信息的Readme和原始代码code。&lt;/p&gt;",
        "&lt;p&gt;课题一——数值相对论求解优化：",
        "&lt;a href=&quot;https://git.tsinghua.edu.cn/shuixr25/amssncku&quot;&gt;",
        "https://git.tsinghua.edu.cn/shuixr25/amssncku",
        "&lt;/a&gt;&lt;br&gt;",
        "课题二——世界模型推理优化：",
        "&lt;a href=&quot;https://git.tsinghua.edu.cn/shuixr25/unifolm&quot;&gt;",
        "unifolm",
        "&lt;/a&gt;&lt;/p&gt;",
    ]
    .concat();

    let text = strip_html(&html);

    assert!(text.contains("各位同学好，本课程计划分组开展Project性能优化。"));
    assert!(text.contains("Readme和原始代码code。"));
    assert!(text
        .contains("课题一——数值相对论求解优化：https://git.tsinghua.edu.cn/shuixr25/amssncku"));
    assert!(text.contains(
        "课题二——世界模型推理优化：unifolm (https://git.tsinghua.edu.cn/shuixr25/unifolm)"
    ));
    assert!(text.contains("\n\n每个仓库内"));
    assert!(text.contains("\n课题二"));
    assert!(!text.contains("<a"));
    assert!(!text.contains("\\。"));
}

#[test]
fn strip_html_formats_homework_detail_lists_and_links() {
    let html = [
        "&lt;p&gt;请完成以下任务：&lt;/p&gt;",
        "&lt;ul&gt;",
        "&lt;li&gt;阅读README&lt;/li&gt;",
        "&lt;li&gt;提交报告&lt;/li&gt;",
        "&lt;/ul&gt;",
        "&lt;p&gt;参考链接：",
        "&lt;a href=&quot;https://learn.tsinghua.edu.cn/ref&quot;&gt;说明文档&lt;/a&gt;",
        "&lt;/p&gt;",
    ]
    .concat();

    let text = strip_html(&html);

    assert_eq!(
        text,
        "请完成以下任务：\n\n- 阅读README\n- 提交报告\n\n参考链接：说明文档 (https://learn.tsinghua.edu.cn/ref)"
    );
}

#[test]
fn decode_entities_and_amp_order() {
    assert_eq!(decode("a&amp;b"), "a&b");
    // &amp; must be decoded last, or &amp;lt; would be decoded twice into <.
    assert_eq!(decode("&amp;lt;"), "&lt;");
    assert_eq!(decode("x&nbsp;y"), "x y");
}

#[test]
fn decode_without_entities_only_trims() {
    assert_eq!(decode("  plain text \n"), "plain text");
    assert_eq!(decode("&mdash;&hellip;&middot;&#39;&quot;"), "—…·'\"");
}

#[test]
fn strip_html_keeps_unclosed_angle_bracket() {
    assert_eq!(strip_html("a < b"), "a < b");
    assert_eq!(strip_html("x<br>y"), "x\ny");
    assert_eq!(strip_html("<hr>z<!-- c -->"), "z");
}

#[test]
fn strip_html_collapses_blank_lines_and_trims() {
    assert_eq!(strip_html("<p></p><p>  one   two </p><div></div><div>three</div>"), "one two\n\nthree");
    assert_eq!(strip_html(""), "");
}

#[test]
fn strip_html_link_forms() {
    assert_eq!(strip_html("<a href='u'>u</a>"), "u");
    assert_eq!(strip_html("<a href=\"\">text</a>"), "text");
    assert_eq!(strip_html("<a href=u></a>"), "u");
    assert_eq!(strip_html("<a>no target</a>"), "no target");
    assert_eq!(strip_html("<A HREF=x>t</a>"), "t (x)");
    // A link left open at the end is still written out.
    assert_eq!(strip_html("<a href=x>open"), "open (x)");
}

#[test]
fn html_attr_reads_quoted_and_bare_values() {
    assert_eq!(html_attr("class=x href=\"/a b\"", "href").as_deref(), Some("/a b"));
    assert_eq!(html_attr("HREF='q'", "href").as_deref(), Some("q"));
    assert_eq!(html_attr("href = v w", "href").as_deref(), Some("v"));
    assert_eq!(html_attr("target=_blank", "href"), None);
    assert_eq!(html_attr("href=&amp;x", "href").as_deref(), Some("&x"));
}

#[test]
fn block_tags_are_recognized() {
    assert!(is_block_html_tag("div"));
    assert!(is_block_html_tag("h6"));
    assert!(!is_block_html_tag("span"));
    assert!(!is_block_html_tag("DIV"));
}

#[test]
fn strip_html_normalizes_lines_once_and_for_all() {
    let once = strip_html("\n\n a  b \n\n\n\nc\n");
    assert_eq!(once, "a b\n\nc");
    assert_eq!(strip_html(&once), once);
}
