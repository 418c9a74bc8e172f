use vstd::prelude::*;

use vstd::string::StringExecFns;

verus! {

/// The publishing page up to the place where flash messages go.
pub const PUBLISH_PAGE_HEAD: &'static str = r#"<!DOCTYPE html>
<html lang="en">
  <head>
    <meta charset="UTF-8" />
    <meta http-equiv="X-UA-Compatible" content="IE=edge" />
    <meta name="viewport" content="width=device-width, initial-scale=1.0" />
    <meta http-equiv="content-type" content="text/html; charset=utf-8" />
    <title>Send newsletter issue</title>
  </head>
  <body>
    "#;

/// The publishing page after the flash messages.
pub const PUBLISH_PAGE_TAIL: &'static str = r#"
    <form action="/admin/newsletters" method="post">
      <label>
        Title
        <input type="text" placeholder="Enter title" name="title" />
      </label>

      <label>
        Content
        <textarea
          name="content"
          cols="30"
          rows="10"
          placeholder="Enter content"
        ></textarea>
      </label>

      <button type="submit">Login</button>
    </form>
  </body>
</html>"#;

/// What opens one flash message line.
pub const FLASH_OPEN: &'static str = "<p><i>";

/// What closes one flash message line.
pub const FLASH_CLOSE: &'static str = "</i></p>\n";

/// Each message as its own italic paragraph line, in order.
pub open spec fn flash_messages_html(messages: Seq<String>) -> Seq<char>
    decreases messages.len(),
{
    if messages.len() == 0 {
        Seq::empty()
    } else {
        flash_messages_html(messages.drop_last()) + FLASH_OPEN@ + messages.last()@ + FLASH_CLOSE@
    }
}

/// The page that holds the newsletter publishing form, showing `messages`
/// above it.
pub fn publish_newsletter_page(messages: &Vec<String>) -> (r: String)
    ensures
        r@ == PUBLISH_PAGE_HEAD@ + flash_messages_html(messages@) + PUBLISH_PAGE_TAIL@,
{
    let mut page = String::from_str(PUBLISH_PAGE_HEAD);
    let mut i: usize = 0;
    while i < messages.len()
        invariant
            i <= messages@.len(),
            page@ == PUBLISH_PAGE_HEAD@ + flash_messages_html(messages@.subrange(0, i as int)),
        decreases messages@.len() - i,
    {
        page.append(FLASH_OPEN);
        page.append(messages[i].as_str());
        page.append(FLASH_CLOSE);
        proof {
            let done = messages@.subrange(0, i + 1);
            assert(done.drop_last() =~= messages@.subrange(0, i as int));
            assert(done.last() == messages@[i as int]);
            assert(page@ =~= PUBLISH_PAGE_HEAD@ + flash_messages_html(done));
        }
        i = i + 1;
    }
    page.append(PUBLISH_PAGE_TAIL);
    proof {
        assert(messages@.subrange(0, messages@.len() as int) =~= messages@);
    }
    page
}

} // verus!
