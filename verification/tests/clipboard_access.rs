use cancersongpaster::clipboard::{clear_clipboard, paste_clipboard, ClipboardError, ClipboardWrapper};

#[test]
fn clipboard_opens_or_reports_why_not() {
    match ClipboardWrapper::new() {
        Ok(mut cb) => {
            let r = paste_clipboard(&mut cb, "line");
            assert!(matches!(r, Ok(()) | Err(ClipboardError::Paste(_))));
            let r = clear_clipboard(&mut cb);
            assert!(matches!(r, Ok(()) | Err(ClipboardError::Clear(_))));
        }
        Err(e) => assert!(matches!(e, ClipboardError::Open(_))),
    }
}
