//! Scripts that run inside the page.

use vstd::prelude::*;

verus! {

/// The script that fills the field near an element, up to the first use of the value.
pub const FILL_HEAD: &'static str = "(element) => { const isField = (node) => !!node && (node.matches?.('input, textarea, select, [contenteditable=\"true\"]') || node.isContentEditable); const findFieldNear = (node) => { if (!node) return null; if (isField(node)) return node; if (node instanceof HTMLLabelElement) { if (node.control) return node.control; if (node.htmlFor) return document.getElementById(node.htmlFor); } const within = node.querySelector?.('input, textarea, select, [contenteditable=\"true\"]'); if (within) return within; const parent = node.closest?.('label, form, section, article, div, fieldset'); const parentField = parent?.querySelector?.('input, textarea, select, [contenteditable=\"true\"]'); if (parentField) return parentField; let sibling = node.nextElementSibling; while (sibling) { const nested = isField(sibling) ? sibling : sibling.querySelector?.('input, textarea, select, [contenteditable=\"true\"]'); if (nested) return nested; sibling = sibling.nextElementSibling; } sibling = node.previousElementSibling; while (sibling) { const nested = isField(sibling) ? sibling : sibling.querySelector?.('input, textarea, select, [contenteditable=\"true\"]'); if (nested) return nested; sibling = sibling.previousElementSibling; } return null; }; const field = findFieldNear(element); if (!field) return false; field.focus?.(); if ('value' in field) { field.value = ";

/// The same script between the two uses of the value.
pub const FILL_MIDDLE: &'static str = "; } else { field.textContent = ";

/// The same script after the second use of the value.
pub const FILL_TAIL: &'static str = "; } field.dispatchEvent(new Event('input', { bubbles: true })); field.dispatchEvent(new Event('change', { bubbles: true })); return true; }";

/// The script that finds a field by the text of its label, up to that text.
pub const LABEL_HEAD: &'static str = "() => { const target = ";

/// The same script between the text of the label and the script that fills the field.
pub const LABEL_MIDDLE: &'static str = "; const normalize = (input) => String(input ?? '').replace(/\\s+/g, ' ').trim().toLowerCase(); const targetText = normalize(target); const isField = (node) => !!node && (node.matches?.('input, textarea, select, [contenteditable=\"true\"]') || node.isContentEditable); const findFieldNear = (node) => { if (!node) return null; if (isField(node)) return node; if (node instanceof HTMLLabelElement) { if (node.control) return node.control; if (node.htmlFor) return document.getElementById(node.htmlFor); } const within = node.querySelector?.('input, textarea, select, [contenteditable=\"true\"]'); if (within) return within; const parent = node.closest?.('label, form, section, article, div, fieldset'); const siblingField = parent?.querySelector?.('input, textarea, select, [contenteditable=\"true\"]'); if (siblingField) return siblingField; let sibling = node.nextElementSibling; while (sibling) { const nested = isField(sibling) ? sibling : sibling.querySelector?.('input, textarea, select, [contenteditable=\"true\"]'); if (nested) return nested; sibling = sibling.nextElementSibling; } return null; }; const candidates = Array.from(document.querySelectorAll('label, [aria-label], input, textarea, select, button, div, span, p')); const match = candidates.find((node) => { const ariaLabel = node.getAttribute?.('aria-label'); const placeholder = 'placeholder' in node ? node.placeholder : ''; return [ariaLabel, placeholder, node.textContent].some((entry) => normalize(entry).includes(targetText)); }); const field = findFieldNear(match); if (!field) return false; return (";

/// The same script after the script that fills the field.
pub const LABEL_TAIL: &'static str = ")(field); }";

} // verus!
