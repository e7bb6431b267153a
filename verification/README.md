# gpui (accessibility projection, glass panel, display-link decisions)

Verified with Verus.

- `src/accessibility.rs` builds the per-frame accessibility tree from the
  collected `accesskit::Node`s (`full_tree`) and computes the update against
  the previous frame's tree (`diff_tree_update`), with the focus rule and the
  laws that relate the two.
- `src/glass_panel.rs` is the glass panel element: its builder methods and the
  paint request it makes. Its layout and element-trait hooks (`id`,
  `source_location`, `request_layout`, `prepaint`) belong to the UI
  framework, which this crate does not have.
- `src/display_link.rs` holds the setup and teardown decisions of a
  per-window display link as a small state machine.
- `app/` holds what runs against the platform: element-id hashing, the
  conversion of updates into `accesskit::TreeUpdate`, and the macOS display
  link that drives the state machine.
