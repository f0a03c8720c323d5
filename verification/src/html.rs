//! The pages.

use vstd::prelude::*;

use crate::escape;
use crate::escape::HtmlEsc;
use crate::reply;
use crate::reply::Reply;
use crate::state::AppState;
use crate::text;

verus! {

/// The picture before a directory's name.
pub const FOLDER_ICON: &'static str = "<span class=\"folder-icon\">&#128193;</span>";

/// The script of the browse page.
pub const JS: &'static str = r#"
async function toggleMark(dirIdx, path, btn) {
    try {
        const res = await fetch('/mark/' + dirIdx + '/' + path, {method: 'POST'});
        if (res.ok) {
            const data = await res.json();
            const card = btn.closest('.card');
            if (data.marked) {
                card.classList.add('downloaded');
                btn.classList.add('active');
            } else {
                card.classList.remove('downloaded');
                btn.classList.remove('active');
            }
        }
    } catch (e) {
        console.error('mark failed:', e);
    }
}
"#;

/// The style sheet of all pages.
pub const CSS: &'static str = r#"
*,*::before,*::after{box-sizing:border-box}
body{font-family:-apple-system,BlinkMacSystemFont,"Segoe UI",Roboto,sans-serif;margin:0;padding:0;background:#f5f5f5;color:#333}
h1{font-size:1.4em;margin:12px 16px}
.breadcrumb{padding:10px 16px;background:#fff;border-bottom:1px solid #e0e0e0;font-size:.9em;overflow-x:auto;white-space:nowrap}
.breadcrumb a{color:#1976d2;text-decoration:none}
.breadcrumb a:hover{text-decoration:underline}
.count-info{margin:8px 16px;font-size:.85em;color:#777}
.dir-list{display:flex;flex-direction:column;gap:2px;margin:8px 16px}
.dir-link{display:flex;align-items:center;gap:8px;padding:10px 12px;background:#fff;border-radius:6px;text-decoration:none;color:#333;font-size:.95em}
.dir-link:hover{background:#e3f2fd}
.dir-link.disabled{opacity:.5;pointer-events:none}
.folder-icon{font-size:1.2em}
.grid{display:grid;grid-template-columns:repeat(auto-fill,minmax(150px,1fr));gap:8px;padding:8px 16px 24px}
.card{background:#fff;border-radius:8px;overflow:hidden;box-shadow:0 1px 3px rgba(0,0,0,.08);border:2px solid transparent;transition:border-color .2s}
.card.downloaded{border-color:#4caf50}
.card img{width:100%;aspect-ratio:1;object-fit:cover;display:block;background:#eee}
.card-info{padding:4px 8px 6px}
.card-name{display:block;font-size:.75em;white-space:nowrap;overflow:hidden;text-overflow:ellipsis;color:#555}
.card-actions{display:flex;gap:4px;margin-top:4px}
.btn{display:inline-flex;align-items:center;justify-content:center;width:32px;height:28px;border:1px solid #ddd;border-radius:4px;background:#fafafa;color:#555;text-decoration:none;font-size:1.1em;cursor:pointer;padding:0}
.btn:hover{background:#e0e0e0}
.btn-mark.active{background:#4caf50;color:#fff;border-color:#4caf50}
.empty{margin:24px 16px;color:#999}
"#;

/// A page up to its title.
pub const PAGE_START: &'static str = r#"<!DOCTYPE html>
<html lang="en">
<head>
<meta charset="utf-8">
<meta name="viewport" content="width=device-width,initial-scale=1">
<title>"#;

// --- The frame ---

/// A page with the given title and contents.
pub open spec fn page_text(title: Seq<char>, body: Seq<char>) -> Seq<char> {
    PAGE_START@ + title + "</title>\n<style>"@ + CSS@ + "</style>\n</head>\n<body>\n"@ + body
        + "\n</body>\n</html>"@
}

/// A page with the given title and contents, both given as HTML.
pub fn page(title: &str, body: &str) -> (r: String)
    ensures
        r@ == page_text(title@, body@),
{
    let mut out: String = PAGE_START.to_string();
    out.append(title);
    out.append("</title>\n<style>");
    out.append(CSS);
    out.append("</style>\n</head>\n<body>\n");
    out.append(body);
    out.append("\n</body>\n</html>");
    out
}

// --- Errors ---

/// The contents of the page for an error.
pub open spec fn error_text(status: nat, message: Seq<char>) -> Seq<char> {
    "<h1>Error "@ + text::decimal(status) + "</h1><p>"@ + escape::html_escape(message)
        + "</p><a href=\"/\">Back to home</a>"@
}

/// The reply for an error: its status, and a page that names it.
pub open spec fn error_reply(status: u16, message: Seq<char>) -> reply::ReplyView {
    reply::html_reply(status, page_text("tis - error"@, error_text(status as nat, message)))
}

/// The reply for an error.
pub fn error_page(status: u16, message: &str) -> (r: Reply)
    ensures
        r@ == error_reply(status, message@),
{
    let mut body: String = "<h1>Error ".to_string();
    text::push_decimal(&mut body, status as u64);
    body.append("</h1><p>");
    HtmlEsc(message).fmt(&mut body);
    body.append("</p><a href=\"/\">Back to home</a>");
    Reply::html(status, page("tis - error", body.as_str()))
}

// --- The list of directories ---

/// The link to one configured directory.
pub open spec fn index_entry(dir_idx: nat, name: Seq<char>, exists: bool) -> Seq<char> {
    "<a class=\""@ + (if exists {
        "dir-link"@
    } else {
        "dir-link disabled"@
    }) + "\" href=\"/browse/"@ + text::decimal(dir_idx) + "\">"@ + FOLDER_ICON@ + " "@
        + escape::html_escape(name) + "</a>"@
}

/// The links to the first `n` configured directories.
pub open spec fn index_entries(app: AppState, n: nat) -> Seq<char>
    decreases n,
{
    if n == 0 {
        Seq::empty()
    } else {
        let i = (n - 1) as nat;
        index_entries(app, i) + index_entry(
            i,
            app.config.directories@[i as int].name@,
            app.base_of(i as int) is Some,
        )
    }
}

/// The start page: a link to each configured directory, disabled where the
/// directory could not be resolved.
pub open spec fn index_text(app: AppState) -> Seq<char> {
    page_text(
        "tis - directories"@,
        "<h1>Directories</h1><div class=\"dir-list\">"@ + index_entries(
            app,
            app.config.directories@.len(),
        ) + "</div>"@,
    )
}

/// Answers a request for the start page.
pub fn index(app: &AppState) -> (r: Reply)
    requires
        app.well_formed(),
    ensures
        r@ == reply::html_reply(200, index_text(*app)),
{
    let mut dirs_html: String = String::new();
    for i in 0..app.config.directories.len()
        invariant
            app.well_formed(),
            dirs_html@ == index_entries(*app, i as nat),
    {
        let mut entry: String = "<a class=\"".to_string();
        if app.base(i).is_some() {
            entry.append("dir-link");
        } else {
            entry.append("dir-link disabled");
        }
        entry.append("\" href=\"/browse/");
        text::push_decimal(&mut entry, i as u64);
        entry.append("\">");
        entry.append(FOLDER_ICON);
        entry.append(" ");
        HtmlEsc(app.config.directories[i].name.as_str()).fmt(&mut entry);
        entry.append("</a>");
        dirs_html.append(entry.as_str());
    }
    let mut body: String = "<h1>Directories</h1><div class=\"dir-list\">".to_string();
    body.append(dirs_html.as_str());
    body.append("</div>");
    Reply::html(200, page("tis - directories", body.as_str()))
}

// --- Laws ---

/// The script of the browse page, line by line. Switching a mark over sends a POST to
/// `/mark/`, with the number of the directory and the path as they are given. Where
/// the answer says that the image is marked now, its card and its button show it, and
/// where it says that it is not, they do not.
pub proof fn script_asks_for_the_mark_and_shows_it()
    ensures
        text::split(JS@, '\n') == seq![
            Seq::<char>::empty(),
            "async function toggleMark(dirIdx, path, btn) {"@,
            "    try {"@,
            "        const res = await fetch('/mark/' + dirIdx + '/' + path, {method: 'POST'});"@,
            "        if (res.ok) {"@,
            "            const data = await res.json();"@,
            "            const card = btn.closest('.card');"@,
            "            if (data.marked) {"@,
            "                card.classList.add('downloaded');"@,
            "                btn.classList.add('active');"@,
            "            } else {"@,
            "                card.classList.remove('downloaded');"@,
            "                btn.classList.remove('active');"@,
            "            }"@,
            "        }"@,
            "    } catch (e) {"@,
            "        console.error('mark failed:', e);"@,
            "    }"@,
            "}"@,
            Seq::<char>::empty(),
        ],
{
    reveal_strlit(
        r#"
async function toggleMark(dirIdx, path, btn) {
    try {
        const res = await fetch('/mark/' + dirIdx + '/' + path, {method: 'POST'});
        if (res.ok) {
            const data = await res.json();
            const card = btn.closest('.card');
            if (data.marked) {
                card.classList.add('downloaded');
                btn.classList.add('active');
            } else {
                card.classList.remove('downloaded');
                btn.classList.remove('active');
            }
        }
    } catch (e) {
        console.error('mark failed:', e);
    }
}
"#,
    );
    reveal_strlit("async function toggleMark(dirIdx, path, btn) {");
    reveal_strlit("    try {");
    reveal_strlit("        const res = await fetch('/mark/' + dirIdx + '/' + path, {method: 'POST'});");
    reveal_strlit("        if (res.ok) {");
    reveal_strlit("            const data = await res.json();");
    reveal_strlit("            const card = btn.closest('.card');");
    reveal_strlit("            if (data.marked) {");
    reveal_strlit("                card.classList.add('downloaded');");
    reveal_strlit("                btn.classList.add('active');");
    reveal_strlit("            } else {");
    reveal_strlit("                card.classList.remove('downloaded');");
    reveal_strlit("                btn.classList.remove('active');");
    reveal_strlit("            }");
    reveal_strlit("        }");
    reveal_strlit("    } catch (e) {");
    reveal_strlit("        console.error('mark failed:', e);");
    reveal_strlit("    }");
    reveal_strlit("}");
    let r19 = Seq::<char>::empty();
    let r18 = "}"@.push('\n') + r19;
    let r17 = "    }"@.push('\n') + r18;
    let r16 = "        console.error('mark failed:', e);"@.push('\n') + r17;
    let r15 = "    } catch (e) {"@.push('\n') + r16;
    let r14 = "        }"@.push('\n') + r15;
    let r13 = "            }"@.push('\n') + r14;
    let r12 = "                btn.classList.remove('active');"@.push('\n') + r13;
    let r11 = "                card.classList.remove('downloaded');"@.push('\n') + r12;
    let r10 = "            } else {"@.push('\n') + r11;
    let r9 = "                btn.classList.add('active');"@.push('\n') + r10;
    let r8 = "                card.classList.add('downloaded');"@.push('\n') + r9;
    let r7 = "            if (data.marked) {"@.push('\n') + r8;
    let r6 = "            const card = btn.closest('.card');"@.push('\n') + r7;
    let r5 = "            const data = await res.json();"@.push('\n') + r6;
    let r4 = "        if (res.ok) {"@.push('\n') + r5;
    let r3 = "        const res = await fetch('/mark/' + dirIdx + '/' + path, {method: 'POST'});"@.push('\n') + r4;
    let r2 = "    try {"@.push('\n') + r3;
    let r1 = "async function toggleMark(dirIdx, path, btn) {"@.push('\n') + r2;
    let r0 = Seq::<char>::empty().push('\n') + r1;
    assert(!"async function toggleMark(dirIdx, path, btn) {"@.contains('\n'));
    assert(!"    try {"@.contains('\n'));
    assert(!"        const res = await fetch('/mark/' + dirIdx + '/' + path, {method: 'POST'});"@.contains('\n'));
    assert(!"        if (res.ok) {"@.contains('\n'));
    assert(!"            const data = await res.json();"@.contains('\n'));
    assert(!"            const card = btn.closest('.card');"@.contains('\n'));
    assert(!"            if (data.marked) {"@.contains('\n'));
    assert(!"                card.classList.add('downloaded');"@.contains('\n'));
    assert(!"                btn.classList.add('active');"@.contains('\n'));
    assert(!"            } else {"@.contains('\n'));
    assert(!"                card.classList.remove('downloaded');"@.contains('\n'));
    assert(!"                btn.classList.remove('active');"@.contains('\n'));
    assert(!"            }"@.contains('\n'));
    assert(!"        }"@.contains('\n'));
    assert(!"    } catch (e) {"@.contains('\n'));
    assert(!"        console.error('mark failed:', e);"@.contains('\n'));
    assert(!"    }"@.contains('\n'));
    assert(!"}"@.contains('\n'));
    assert(JS@ =~= r0);
    text::split_without_separator(r19, '\n');
    text::split_at_separator("}"@, r19, '\n');
    text::split_at_separator("    }"@, r18, '\n');
    text::split_at_separator("        console.error('mark failed:', e);"@, r17, '\n');
    text::split_at_separator("    } catch (e) {"@, r16, '\n');
    text::split_at_separator("        }"@, r15, '\n');
    text::split_at_separator("            }"@, r14, '\n');
    text::split_at_separator("                btn.classList.remove('active');"@, r13, '\n');
    text::split_at_separator("                card.classList.remove('downloaded');"@, r12, '\n');
    text::split_at_separator("            } else {"@, r11, '\n');
    text::split_at_separator("                btn.classList.add('active');"@, r10, '\n');
    text::split_at_separator("                card.classList.add('downloaded');"@, r9, '\n');
    text::split_at_separator("            if (data.marked) {"@, r8, '\n');
    text::split_at_separator("            const card = btn.closest('.card');"@, r7, '\n');
    text::split_at_separator("            const data = await res.json();"@, r6, '\n');
    text::split_at_separator("        if (res.ok) {"@, r5, '\n');
    text::split_at_separator("        const res = await fetch('/mark/' + dirIdx + '/' + path, {method: 'POST'});"@, r4, '\n');
    text::split_at_separator("    try {"@, r3, '\n');
    text::split_at_separator("async function toggleMark(dirIdx, path, btn) {"@, r2, '\n');
    text::split_at_separator(Seq::<char>::empty(), r1, '\n');
    assert(text::split(JS@, '\n') =~= seq![
        Seq::<char>::empty(),
        "async function toggleMark(dirIdx, path, btn) {"@,
        "    try {"@,
        "        const res = await fetch('/mark/' + dirIdx + '/' + path, {method: 'POST'});"@,
        "        if (res.ok) {"@,
        "            const data = await res.json();"@,
        "            const card = btn.closest('.card');"@,
        "            if (data.marked) {"@,
        "                card.classList.add('downloaded');"@,
        "                btn.classList.add('active');"@,
        "            } else {"@,
        "                card.classList.remove('downloaded');"@,
        "                btn.classList.remove('active');"@,
        "            }"@,
        "        }"@,
        "    } catch (e) {"@,
        "        console.error('mark failed:', e);"@,
        "    }"@,
        "}"@,
        Seq::<char>::empty(),
    ]);
}

/// A page is an HTML document whose head comes up to the opening tag of its title.
pub proof fn pages_start_with_their_head()
    ensures
        PAGE_START@.len() > 22,
        PAGE_START@.take(15) == "<!DOCTYPE html>"@,
        PAGE_START@.skip(PAGE_START@.len() - 7) == "<title>"@,
{
    reveal_strlit(
        r#"<!DOCTYPE html>
<html lang="en">
<head>
<meta charset="utf-8">
<meta name="viewport" content="width=device-width,initial-scale=1">
<title>"#,
    );
    reveal_strlit("<!DOCTYPE html>");
    reveal_strlit("<title>");
    assert(PAGE_START@.take(15) =~= "<!DOCTYPE html>"@);
    assert(PAGE_START@.skip(PAGE_START@.len() - 7) =~= "<title>"@);
}

} // verus!
