{% extends "base" %}
{% block content %}
<div class="flex flex-col h-screen overflow-hidden">
<!-- Header -->
<header class="flex items-center justify-between px-6 py-2.5 border-b border-border bg-card dark:bg-card flex-shrink-0 w-full">
<div class="flex items-center gap-3">
<button onclick="toggleMobileSidebar()" class="p-1.5 rounded-lg hover:bg-muted text-muted-fg transition-colors lg:hidden" title="Menu">
<svg class="w-5 h-5" fill="none" stroke="currentColor" viewBox="0 0 24 24">
<path stroke-linecap="round" stroke-linejoin="round" stroke-width="2" d="M4 6h16M4 12h16M4 18h16"/>
</svg>
</button>
<span class="text-sm font-semibold text-card-fg">MinimaMemosa</span>
</div>
<div class="flex items-center gap-2">
<button onclick="toggleTheme()"
class="p-1.5 rounded-lg hover:bg-muted text-muted-fg transition-colors">
<svg class="w-4 h-4" fill="none" stroke="currentColor" viewBox="0 0 24 24">
<path stroke-linecap="round" stroke-linejoin="round" stroke-width="2" d="M20.354 15.354A9 9 0 018.646 3.646 9.003 9.003 0 0012 21a9.003 9.003 0 008.354-5.646z"/>
</svg>
</button>
<div class="flex items-center gap-2 px-2 py-1 rounded-lg hover:bg-muted cursor-pointer">
<div class="avatar-initials avatar-initials-sm bg-accent-500 text-white">{{ avatar }}</div>
<span class="text-sm text-card-fg hidden sm:inline">{{ username }}</span>
</div>
<a href="/logout" class="text-xs text-muted-fg hover:text-red-500 transition-colors ml-1" title="Logout">
<svg class="w-4 h-4" fill="none" stroke="currentColor" viewBox="0 0 24 24">
<path stroke-linecap="round" stroke-linejoin="round" stroke-width="2" d="M17 16l4-4m0 0l-4-4m4 4H7m6 4v1a3 3 0 01-3 3H6a3 3 0 01-3-3V7a3 3 0 013-3h4a3 3 0 013 3v1"/>
</svg>
</a>
</div>
</header>
<div class="flex flex-1 overflow-hidden">
<!-- Icon Bar -->
<div class="w-14 flex-shrink-0 bg-card border-r border-border flex-col items-center py-3 gap-2 z-20 hidden lg:flex">
<a id="icon-notes"
href="/app"
class="p-2.5 rounded-xl {% if active_panel == 'notes' %}bg-accent-100 dark:bg-accent-200/80 text-accent-600 dark:text-accent-800{% else %}text-muted-fg hover:bg-muted hover:text-foreground{% endif %} transition-colors"
title="Notes">
<svg class="w-5 h-5" fill="none" stroke="currentColor" viewBox="0 0 24 24">
<path d="M14 2H6a2 2 0 0 0-2 2v16a2 2 0 0 0 2 2h12a2 2 0 0 0 2-2V8z" stroke-width="2"/>
<polyline points="14 2 14 8 20 8" stroke-width="2"/>
<line x1="12" y1="18" x2="12" y2="12" stroke-width="2"/>
<line x1="9" y1="15" x2="15" y2="15" stroke-width="2"/>
</svg>
</a>
<a id="icon-resources"
href="/app/resources"
class="p-2.5 rounded-xl {% if active_panel == 'resources' %}bg-accent-100 dark:bg-accent-200/80 text-accent-600 dark:text-accent-800{% else %}text-muted-fg hover:bg-muted hover:text-foreground{% endif %} transition-colors"
title="Resources">
<svg class="w-5 h-5" fill="none" stroke="currentColor" viewBox="0 0 24 24">
<path stroke-linecap="round" stroke-linejoin="round" stroke-width="2" d="M4 16l4.586-4.586a2 2 0 012.828 0L16 16m-2-2l1.586-1.586a2 2 0 012.828 0L20 14m-6-6h.01M6 20h12a2 2 0 002-2V6a2 2 0 00-2-2H6a2 2 0 00-2 2v12a2 2 0 002 2z"/>
</svg>
</a>
<div class="flex-1"></div>
<button onclick="openSettings()"
class="p-2.5 rounded-xl text-muted-fg hover:bg-muted hover:text-foreground transition-colors"
title="Settings">
<svg class="w-5 h-5" fill="none" stroke="currentColor" viewBox="0 0 24 24">
<path stroke-linecap="round" stroke-linejoin="round" stroke-width="2" d="M10.325 4.317c.426-1.756 2.924-1.756 3.35 0a1.724 1.724 0 002.573 1.066c1.543-.94 3.31.826 2.37 2.37a1.724 1.724 0 001.066 2.573c1.756.426 1.756 2.924 0 3.35a1.724 1.724 0 00-1.066 2.573c.94 1.543-.826 3.31-2.37 2.37a1.724 1.724 0 00-2.573 1.066c-.426 1.756-2.924 1.756-3.35 0a1.724 1.724 0 00-2.573-1.066c-1.543.94-3.31-.826-2.37-2.37a1.724 1.724 0 00-1.066-2.573c-1.756-.426-1.756-2.924 0-3.35a1.724 1.724 0 001.066-2.573c-.94-1.543.826-3.31 2.37-2.37.996.608 2.296.07 2.572-1.065z"/>
<path stroke-linecap="round" stroke-linejoin="round" stroke-width="2" d="M15 12a3 3 0 11-6 0 3 3 0 016 0z"/>
</svg>
</button>
</div>
<input type="hidden" id="selected-calendar-date" name="selected_date" value="">
{% if not active_panel %}{% set active_panel = 'notes' %}{% endif %}
<!-- Unified Sidebar (always visible on desktop, drawer on mobile) -->
<div id="unified-sidebar"
class="w-72 flex-shrink-0 bg-sidebar border-r border-border flex-col h-full overflow-hidden hidden {% if active_panel != 'resources' %}lg:flex{% else %}lg:hidden{% endif %}">
<div id="unified-sidebar-content"
hx-trigger="load once, memoUpdated from:body"
hx-get="/unified-sidebar"
hx-swap="innerHTML"
hx-on::after-settle="highlightActiveNote()"
class="flex flex-col h-full">
</div>
</div>
<!-- Resources Panel -->
<div id="resources-panel"
class="w-72 flex-shrink-0 bg-sidebar border-r border-border flex-col h-full hidden {% if active_panel == 'resources' %}lg:flex{% else %}lg:hidden{% endif %}"
hx-trigger="load once"
hx-get="/resources-feed?offset=0"
hx-swap="innerHTML">
</div>
<!-- Main Content -->
<div id="main-content" class="flex-1 flex flex-col h-full overflow-hidden min-w-0">
<!-- "Back" bar (hidden when in feed state) -->
<div id="note-back-bar" class="hidden px-3 sm:px-4 lg:px-6 pt-3 flex-shrink-0">
<button onclick="backToFeed()"
class="flex items-center gap-1.5 text-sm text-muted-fg hover:text-foreground transition-colors">
<svg class="w-4 h-4" fill="none" stroke="currentColor" viewBox="0 0 24 24">
<path stroke-linecap="round" stroke-linejoin="round" stroke-width="2" d="M15 19l-7-7 7-7"/>
</svg>
Back to all notes
</button>
</div>
<!-- Timeline View -->
<div id="timeline-view" class="flex-1 flex flex-col overflow-hidden">
<div class="flex-1 overflow-y-auto px-3 sm:px-4 lg:px-6 py-3 lg:py-5 pb-20 lg:pb-5">
<div class="max-w-2xl mx-auto">
<!-- Editor (hidden when focused on a note) -->
<div id="editor-section">
<!-- Notion-style Editor -->
<div class="max-w-2xl mx-auto mb-8">
<div class="bg-card dark:bg-card rounded-lg border border-border shadow-sm">
<form id="memo-form" hx-post="/memos"
hx-swap="none"
hx-on::after-request="if(event.detail.successful){ insertNewMemoIntoTimeline(event.detail.xhr.responseText); }"
class="memo-editor relative"
ondragover="event.preventDefault(); this.classList.add('border-accent-500')"
ondragleave="event.preventDefault(); this.classList.remove('border-accent-500')"
ondrop="event.preventDefault(); this.classList.remove('border-accent-500'); handleDrop(event)"
onsubmit="document.getElementById('memo-editor-input').value = getTiptapMarkdown();">
<div class="px-3 sm:px-4 lg:px-8 pt-4 lg:pt-6 pb-2 relative">
<div id="memo-editor"
class="w-full bg-transparent text-foreground text-base leading-snug min-h-[6rem] lg:min-h-[10rem] tiptap-editor max-w-none focus:outline-none"
contenteditable="false"
data-placeholder="Type '/' for commands..."
oninput="onFallbackInput(this)"
onkeydown="onFallbackKeydown(event, this)"></div>
<!-- Attachment Previews -->
<div id="attachment-preview-container" class="border border-border rounded-xl bg-card overflow-hidden hidden">
<div id="attachment-preview-list" class="flex flex-col"></div>
</div>
<input type="hidden" name="content" id="memo-editor-input" value="">
<p class="text-xs text-muted-fg text-center mt-2 select-none">Use <kbd class="px-1 py-0.5 bg-muted border border-border rounded text-[10px] font-mono">/</kbd> slash commands or markdown syntax to format</p>
</div>
<!-- Slash Commands Dropdown -->
<div id="slash-menu" class="hidden bg-card border border-border rounded-lg shadow-lg py-1 min-w-[260px] z-50"></div>
<input type="file" id="image-upload-input" accept="image/*" multiple class="hidden" onchange="uploadFilesForEditor(this.files);this.value=''">
<input type="file" id="file-upload-input" accept="*/*" multiple class="hidden" onchange="uploadFilesForEditor(this.files);this.value=''">
<div class="flex items-center justify-between px-3 sm:px-4 lg:px-8 py-2 lg:py-3 border-t border-border bg-muted dark:bg-muted rounded-b-lg">
<div class="flex items-center flex-wrap gap-1">
<!-- Emoji Picker -->
<div class="visibility-dropdown relative">
<button type="button" onclick="event.stopPropagation(); toggleEmojiPicker()" class="p-1.5 rounded-md text-muted-fg hover:text-foreground hover:bg-muted transition-colors" title="Insert Emoji">
<svg class="w-4 h-4" fill="none" stroke="currentColor" viewBox="0 0 24 24"><path stroke-linecap="round" stroke-linejoin="round" stroke-width="2" d="M14.828 14.828a4 4 0 01-5.656 0M9 10h.01M15 10h.01M21 12a9 9 0 11-18 0 9 9 0 0118 0z"/></svg>
</button>
<div id="emoji-picker" class="hidden absolute top-full left-0 mt-1 bg-card border border-border rounded-xl shadow-xl p-2 z-50 w-[280px] max-w-[calc(100vw-2rem)] max-h-[200px] overflow-y-auto">
<div id="emoji-grid" class="grid grid-cols-7 gap-0.5 text-lg"></div>
</div>
</div>
<div class="relative">
<button type="button" onclick="event.stopPropagation(); togglePlusMenu()" class="p-1.5 rounded-md text-muted-fg hover:text-foreground hover:bg-muted transition-colors" title="More">
<svg class="w-4 h-4" fill="none" stroke="currentColor" viewBox="0 0 24 24"><path stroke-linecap="round" stroke-linejoin="round" stroke-width="2" d="M12 4v16m8-8H4"/></svg>
</button>
<div id="plus-menu" class="hidden absolute top-full left-0 mt-1 bg-card border border-border rounded-xl shadow-xl py-1 z-50 min-w-[180px] max-w-[calc(100vw-2rem)]">
<button type="button" onclick="uploadImage()" class="flex items-center gap-2 w-full px-3 py-1.5 text-xs text-foreground hover:bg-muted transition-colors">
<span>📷</span> Upload Image
</button>
<button type="button" onclick="uploadFile()" class="flex items-center gap-2 w-full px-3 py-1.5 text-xs text-foreground hover:bg-muted transition-colors">
<span>📎</span> Upload File
</button>
<button type="button" id="record-audio-btn" onclick="toggleAudioRecording()" class="flex items-center gap-2 w-full px-3 py-1.5 text-xs text-foreground hover:bg-muted transition-colors">
<span>🎤</span><span id="record-label">Record Audio</span>
</button>
<button type="button" onclick="event.stopPropagation(); toggleLinkMemo()" class="flex items-center gap-2 w-full px-3 py-1.5 text-xs text-foreground hover:bg-muted transition-colors">
<span>🔗</span> Link Note
</button>
</div>
<div id="link-memo-dropdown" class="hidden absolute top-full left-0 mt-1 bg-card border border-border rounded-xl shadow-xl z-50 w-[250px]">
<div class="p-2"><input type="text" id="link-memo-search" placeholder="Search notes..." oninput="debouncedLinkSearch(this.value)" class="w-full px-2 py-1.5 text-xs bg-muted border border-border rounded-lg focus:outline-none focus:ring-1 focus:ring-accent-500"></div>
<div id="link-memo-results" class="max-h-[200px] overflow-y-auto"></div>
</div>
{% if has_password %}
<div class="px-4 pb-2">
<div class="border border-dashed border-border rounded-lg p-3">
<p class="text-xs text-muted-fg mb-2">This note is password-protected.</p>
<button type="button" onclick="showVisPwdModal(true)"
class="text-xs font-medium text-accent-600 hover:text-accent-700 dark:text-accent-400 dark:hover:text-accent-300 transition-colors">Change Password</button>
</div>
</div>
{% endif %}
</div>
<div class="visibility-dropdown relative">
<button type="button" onclick="event.stopPropagation(); toggleVisDropdown(this)" class="flex items-center gap-1 px-2 py-1 rounded-md text-muted-fg hover:text-foreground hover:bg-muted transition-colors text-xs">
<span class="vis-label flex items-center gap-1"><svg class="w-3.5 h-3.5" fill="none" stroke="currentColor" viewBox="0 0 24 24"><path stroke-linecap="round" stroke-linejoin="round" stroke-width="2" d="M16 7a4 4 0 11-8 0 4 4 0 018 0zM12 14a7 7 0 00-7 7h14a7 7 0 00-7-7z"/></svg>Private</span>
<svg class="w-3 h-3" fill="none" stroke="currentColor" viewBox="0 0 24 24"><path stroke-linecap="round" stroke-linejoin="round" stroke-width="2" d="M19 9l-7 7-7-7"/></svg>
</button>
<div class="vis-dropdown-menu hidden absolute top-full left-0 mt-1 bg-card border border-border rounded-lg shadow-lg py-1 min-w-[140px] z-50">
<button type="button" data-vis-value="public" onclick="selectVis(this)" class="flex items-center gap-2 w-full px-3 py-1.5 text-xs text-foreground hover:bg-muted transition-colors">
<svg class="w-3.5 h-3.5" fill="none" stroke="currentColor" viewBox="0 0 24 24"><path stroke-linecap="round" stroke-linejoin="round" stroke-width="2" d="M3.055 11H5a2 2 0 012 2v1a2 2 0 002 2 2 2 0 012 2v2.945M8 3.935V5.5A2.5 2.5 0 0010.5 8h.5a2 2 0 012 2 2 2 0 104 0 2 2 0 012-2h1.064M15 20.488V18a2 2 0 012-2h3.064M21 12a9 9 0 11-18 0 9 9 0 0118 0z"/></svg>
Public
</button>
<button type="button" data-vis-value="protected" onclick="selectVis(this)" class="flex items-center gap-2 w-full px-3 py-1.5 text-xs text-foreground hover:bg-muted transition-colors">
<svg class="w-3.5 h-3.5" fill="none" stroke="currentColor" viewBox="0 0 24 24"><rect x="3" y="11" width="18" height="11" rx="2" stroke-width="2"/><path d="M7 11V7a5 5 0 0110 0v4" stroke-width="2"/></svg>
Protected
</button>
<button type="button" data-vis-value="private" onclick="selectVis(this)" class="flex items-center gap-2 w-full px-3 py-1.5 text-xs text-foreground hover:bg-muted transition-colors">
<svg class="w-3.5 h-3.5" fill="none" stroke="currentColor" viewBox="0 0 24 24"><path stroke-linecap="round" stroke-linejoin="round" stroke-width="2" d="M16 7a4 4 0 11-8 0 4 4 0 018 0zM12 14a7 7 0 00-7 7h14a7 7 0 00-7-7z"/></svg>
Private
</button>
</div>
<input type="hidden" name="visibility" value="private">
<input type="hidden" name="visibility_password" value="">
</div>
<span class="text-xs text-muted-fg hidden lg:inline">Press <kbd class="px-1.5 py-0.5 bg-muted border border-border rounded text-[10px] font-mono">/</kbd> for commands</span>
</div>
<button type="submit" id="save-memo-btn" disabled
class="py-1.5 px-5 bg-accent-600 hover:bg-accent-700 text-white text-sm font-medium rounded-lg transition-colors focus:outline-none focus:ring-2 focus:ring-accent-500 disabled:opacity-50 disabled:cursor-not-allowed disabled:hover:bg-accent-600">
Save
</button>
</div>
</form>
</div>
</div>
</div>
<!-- Timeline -->
<div id="timeline" class="space-y-1"
{% if selected_note %}data-active-note-id="{{ selected_note.id }}"{% endif %}>
{% if active_panel == 'notes' and selected_note %}
{% set id = selected_note.id %}
{% set content = selected_note.content %}
{% set content_html = selected_note.content_html %}
{% set visibility = selected_note.visibility %}
{% set created_at = selected_note.created_at %}
{% set created_at_relative = selected_note.created_at_relative %}
{% set tags = selected_note.tags %}
{% set resources = selected_note.resources %}
{% set username = selected_note.username %}
{% include "memo_fragment" %}
{% else %}
{% for group in memo_groups %}
<div class="mb-4">
<div class="flex items-center gap-2 mb-3">
<span class="text-xs font-medium text-muted-fg uppercase tracking-wider">{{ group.label }}</span>
<span class="text-xs text-muted-fg">{{ group.date }}</span>
<div class="flex-1 border-t border-border"></div>
<span class="text-xs text-muted-fg font-mono">{{ group.memos|length }}</span>
</div>
<div class="space-y-2">
{% for memo in group.memos %}
{% set id = memo.id %}
{% set content = memo.content %}
{% set content_html = memo.content_html %}
{% set visibility = memo.visibility %}
{% set created_at = memo.created_at %}
{% set created_at_relative = memo.created_at_relative %}
{% set resources = memo.resources %}
{% set tags = memo.tags %}
{% include "memo_fragment" %}
{% endfor %}
</div>
</div>
{% endfor %}
{% if next_offset %}
<div id="sentinel-memos-0" class="h-4"
hx-get="/memos-feed?offset={{ next_offset }}"
hx-trigger="revealed"
hx-swap="outerHTML"></div>
{% endif %}
{% if not memo_groups %}
<div class="text-center py-16">
<p class="text-muted-fg text-sm">No notes yet. Write your first note above!</p>
</div>
{% endif %}
{% endif %}
</div>
</div>
</div>
</div>
<!-- Note Detail View (hidden by default) -->
<div id="note-detail-view" class="flex-1 flex-col overflow-y-auto px-6 py-4 hidden">
</div>
</div>
</div>
<!-- Bottom Navigation (mobile only) -->
<nav class="fixed bottom-0 left-0 right-0 z-30 bg-card border-t border-border flex items-center justify-around py-2 px-4 lg:hidden safe-area-bottom">
<a href="/app"
class="flex flex-col items-center gap-0.5 p-1.5 {% if active_panel != 'resources' %}text-accent-600 dark:text-accent-400{% else %}text-muted-fg{% endif %} transition-colors">
<svg class="w-5 h-5" fill="none" stroke="currentColor" viewBox="0 0 24 24">
<path d="M14 2H6a2 2 0 0 0-2 2v16a2 2 0 0 0 2 2h12a2 2 0 0 0 2-2V8z" stroke-width="2"/>
<polyline points="14 2 14 8 20 8" stroke-width="2"/>
<line x1="12" y1="18" x2="12" y2="12" stroke-width="2"/>
<line x1="9" y1="15" x2="15" y2="15" stroke-width="2"/>
</svg>
<span class="text-[10px]">Notes</span>
</a>
<a href="/app/resources"
class="flex flex-col items-center gap-0.5 p-1.5 {% if active_panel == 'resources' %}text-accent-600 dark:text-accent-400{% else %}text-muted-fg{% endif %} transition-colors">
<svg class="w-5 h-5" fill="none" stroke="currentColor" viewBox="0 0 24 24">
<path stroke-linecap="round" stroke-linejoin="round" stroke-width="2" d="M4 16l4.586-4.586a2 2 0 012.828 0L16 16m-2-2l1.586-1.586a2 2 0 012.828 0L20 14m-6-6h.01M6 20h12a2 2 0 002-2V6a2 2 0 00-2-2H6a2 2 0 00-2 2v12a2 2 0 002 2z"/>
</svg>
<span class="text-[10px]">Resources</span>
</a>
<button onclick="openSettings()"
class="flex flex-col items-center gap-0.5 p-1.5 text-muted-fg transition-colors">
<svg class="w-5 h-5" fill="none" stroke="currentColor" viewBox="0 0 24 24">
<path stroke-linecap="round" stroke-linejoin="round" stroke-width="2" d="M10.325 4.317c.426-1.756 2.924-1.756 3.35 0a1.724 1.724 0 002.573 1.066c1.543-.94 3.31.826 2.37 2.37a1.724 1.724 0 001.066 2.573c1.756.426 1.756 2.924 0 3.35a1.724 1.724 0 00-1.066 2.573c.94 1.543-.826 3.31-2.37 2.37a1.724 1.724 0 00-2.573 1.066c-.426 1.756-2.924 1.756-3.35 0a1.724 1.724 0 00-2.573-1.066c-1.543.94-3.31-.826-2.37-2.37a1.724 1.724 0 00-1.066-2.573c-1.756-.426-1.756-2.924 0-3.35a1.724 1.724 0 001.066-2.573c-.94-1.543.826-3.31 2.37-2.37.996.608 2.296.07 2.572-1.065z"/>
<path stroke-linecap="round" stroke-linejoin="round" stroke-width="2" d="M15 12a3 3 0 11-6 0 3 3 0 016 0z"/>
</svg>
<span class="text-[10px]">Settings</span>
</button>
</nav>
<script>
/* ── Editor Fallback (works if Tiptap CDN fails) ── */
function getEditorText() {
var el = document.getElementById('memo-editor');
if (window.tiptapEditor) {
return window.tiptapEditor.getText();
}
return el ? (el.innerText || el.textContent || '') : '';
}
function onFallbackInput(el) {
var text = getEditorText();
document.getElementById('memo-editor-input').value = text;
var isEmpty = !text.trim();
if (isEmpty) {
el.setAttribute('data-empty', 'true');
} else {
el.removeAttribute('data-empty');
}
updateSaveButtonState();
}
function onFallbackKeydown(e, el) {
if ((e.ctrlKey || e.metaKey) && e.key === 'Enter') {
e.preventDefault();
document.getElementById('memo-editor-input').value = getEditorText();
var btn = document.getElementById('memo-form').querySelector('button[type="submit"]');
if (btn) btn.click();
return;
}
if (e.key === 'Enter' && !e.shiftKey) {
e.preventDefault();
var br = document.createElement('br');
var sel = window.getSelection();
if (!sel.rangeCount) return;
var range = sel.getRangeAt(0);
range.deleteContents();
range.insertNode(br);
range.setStartAfter(br);
range.collapse(true);
sel.removeAllRanges(); sel.addRange(range);
document.getElementById('memo-editor-input').value = getEditorText();
updateSaveButtonState();
return;
}
var _sm = document.getElementById('slash-menu');
if (_sm && !_sm.classList.contains('hidden')) {
if (e.key === 'ArrowDown') {
e.preventDefault();
if (_slashSelectedIdx < _slashFilteredCommands.length - 1) _slashSelectedIdx++;
else _slashSelectedIdx = 0;
_highlightSlashItem();
return;
}
if (e.key === 'ArrowUp') {
e.preventDefault();
if (_slashSelectedIdx > 0) _slashSelectedIdx--;
else _slashSelectedIdx = _slashFilteredCommands.length - 1;
_highlightSlashItem();
return;
}
if (e.key === 'Enter') {
e.preventDefault();
var cmd = _slashFilteredCommands[_slashSelectedIdx];
if (cmd) { hideSlashMenu(); applySlashCommand(cmd); }
return;
}
if (e.key === 'Escape') {
hideSlashMenu();
return;
}
}
if (e.key === '/') {
setTimeout(function() { checkSlashCommand(el); }, 0);
return;
}
if (e.key === 'Escape') {
document.getElementById('slash-menu').classList.add('hidden');
}
}
function getTextOffset(el) {
var sel = window.getSelection();
if (!sel.rangeCount || !el.contains(sel.anchorNode)) return getEditorText().length;
var range = sel.getRangeAt(0);
var offset = 0;
var walker = document.createTreeWalker(el, NodeFilter.SHOW_TEXT, null, false);
while (walker.nextNode()) {
if (walker.currentNode === range.startContainer) { offset += range.startOffset; break; }
offset += walker.currentNode.textContent.length;
}
return offset;
}
function restoreCursor(el, target) {
el.focus();
var walker = document.createTreeWalker(el, NodeFilter.SHOW_TEXT, null, false);
var node, pos = 0;
while (node = walker.nextNode()) {
var len = node.textContent.length;
if (pos + len >= target) {
var r = document.createRange();
r.setStart(node, target - pos);
r.collapse(true);
var s = window.getSelection();
s.removeAllRanges(); s.addRange(r);
return;
}
pos += len;
}
var r = document.createRange();
r.selectNodeContents(el); r.collapse(false);
var s = window.getSelection();
s.removeAllRanges(); s.addRange(r);
}
/* ── Tiptap Editor Globals ── */
function getTiptapMarkdown() {
var ed = window.tiptapEditor;
if (ed) {
if (ed.isEmpty) return '';
var html = ed.getHTML();
if (html && html !== '<p></p>') {
if (html.indexOf('?w=') >= 0) return html;
try {
var ts = new TurndownService({ headingStyle: 'atx' });
return ts.turndown(html);
} catch(e) {}
}
return '';
}
return getEditorText();
}
function updateSaveButtonState() {
var btn = document.getElementById('save-memo-btn');
if (!btn) return;
btn.disabled = getTiptapMarkdown().trim() === '' && editorAttachments.length === 0;
}
function resetEditor() {
var ed = window.tiptapEditor;
if (ed) {
ed.commands.clearContent(true);
} else {
var el = document.getElementById('memo-editor');
if (el) { el.innerHTML = ''; el.setAttribute('data-empty', 'true'); }
}
var input = document.getElementById('memo-editor-input');
if (input) input.value = '';
editorAttachments = [];
renderEditorAttachments();
var dd = document.querySelector('.vis-dropdown-menu');
if (dd) dd.classList.add('hidden');
updateSaveButtonState();
}
function insertContenteditable(text) {
var ed = window.tiptapEditor;
if (ed) { ed.chain().focus().insertContent(text).run(); }
else {
var el = document.getElementById('memo-editor');
if (!el) return;
var sel = window.getSelection();
if (!sel.rangeCount) { el.focus(); sel.selectNodeContents(el); sel.collapse(false); }
var range = sel.getRangeAt(0);
range.deleteContents();
range.insertNode(document.createTextNode(text));
range.collapse(false);
sel.removeAllRanges(); sel.addRange(range);
document.getElementById('memo-editor-input').value = getEditorText();
updateSaveButtonState();
}
}
/* ── Emoji Picker ── */
var EMOJIS = ['😀','😁','😂','🤣','😃','😄','😅','😆','😉','😊','😋','😎','😍','🥰','😘','😗','😙','😚','🙂','🤗','🤩','🤔','🤨','😐','😑','😶','🙄','😏','😣','😥','😮','🤐','😯','😪','😫','😴','😌','😛','😜','😝','🤤','😒','😓','😔','😕','🙃','🤑','😲','☹️','🙁','😖','😞','😟','😤','😢','😭','😦','😧','😨','😩','🤯','😬','😰','😱','🥵','🥶','😳','🤪','😵','😡','😠','🤬','👍','👎','👊','✊','🤛','🤜','👏','🙌','👐','🤲','🤝','🙏','✌️','🤟','🤘','👌','💪','❤️','🧡','💛','💚','💙','💜','🖤','💔','💕','💞','💗','💖','✨','🔥','⭐','🌟','💡','📝','📌','📍','🎉','🎊','🎈','🎁','🏆','✅','❌','💯','🔗','♻️','🔄','📎','🔒','🔓','☀️','🌙','⭐','🌈','⚡','🌊','🔥','❄️','🌱','🌿','🍀','🎯','🚀','💻','📱','⌨️','🖥️','📷','🎥','🔊','📢','💬','🗨️','👀','🖐️','✋','🤚','👋'];
var audioRecorder = null;
var audioChunks = [];
function toggleEmojiPicker() {
var picker = document.getElementById('emoji-picker');
if (picker.classList.contains('hidden')) {
var grid = document.getElementById('emoji-grid');
if (!grid.children.length) {
grid.innerHTML = EMOJIS.map(function(e) { return '<button type="button" onclick="insertEmoji(\''+e+'\')" class="hover:bg-muted rounded p-0.5 transition-colors">'+e+'</button>'; }).join('');
}
closeAllDropdowns();
picker.classList.remove('hidden');
} else {
picker.classList.add('hidden');
}
}
function insertEmoji(emoji) { insertContenteditable(emoji); document.getElementById('emoji-picker').classList.add('hidden'); }
function togglePlusMenu() {
var menu = document.getElementById('plus-menu');
if (menu.classList.contains('hidden')) {
closeAllDropdowns();
menu.classList.remove('hidden');
} else { menu.classList.add('hidden'); }
}
function uploadImage() { document.getElementById('image-upload-input').click(); closeAllDropdowns(); }
function uploadFile() { document.getElementById('file-upload-input').click(); closeAllDropdowns(); }
function toggleAudioRecording() {
var label = document.getElementById('record-label');
if (audioRecorder && audioRecorder.state === 'recording') {
audioRecorder.stop();
label.textContent = 'Record Audio';
return;
}
if (!navigator.mediaDevices || !navigator.mediaDevices.getUserMedia) { alert('Audio recording not supported in this browser.'); return; }
navigator.mediaDevices.getUserMedia({ audio: true }).then(function(stream) {
audioChunks = [];
audioRecorder = new MediaRecorder(stream);
audioRecorder.ondataavailable = function(e) { if (e.data.size > 0) audioChunks.push(e.data); };
audioRecorder.onstop = function() {
stream.getTracks().forEach(function(t) { t.stop(); });
var blob = new Blob(audioChunks, { type: 'audio/webm' });
var file = new File([blob], 'recording.webm', { type: 'audio/webm' });
uploadFilesForEditor([file]);
audioRecorder = null;
};
audioRecorder.start();
label.textContent = '⏹ Stop Recording';
closeAllDropdowns();
}).catch(function() { alert('Microphone access denied.'); });
}
function toggleLinkMemo() {
var dd = document.getElementById('link-memo-dropdown');
if (dd.classList.contains('hidden')) {
closeAllDropdowns();
dd.classList.remove('hidden');
document.getElementById('link-memo-search').value = '';
document.getElementById('link-memo-results').innerHTML = '<div class="px-3 py-2 text-xs text-muted-fg">Type to search...</div>';
setTimeout(function() { document.getElementById('link-memo-search').focus(); }, 100);
} else { dd.classList.add('hidden'); }
}
var debouncedLinkSearch = debounce(function(q) { searchLinkMemos(q) }, 200);
function searchLinkMemos(query) {
if (!query || query.length < 1) { document.getElementById('link-memo-results').innerHTML = '<div class="px-3 py-2 text-xs text-muted-fg">Type to search...</div>'; return; }
fetch('/memos-json?q=' + encodeURIComponent(query))
.then(function(r) { return r.json(); })
.then(function(data) {
var container = document.getElementById('link-memo-results');
if (!data.length) { container.innerHTML = '<div class="px-3 py-2 text-xs text-muted-fg">No results</div>'; return; }
container.innerHTML = data.map(function(m) {
var title = m.title || m.content || 'Untitled';
var preview = (m.content || '').replace(/[\[\]!#*`>]/g, '').substring(0, 80);
return '<button type="button" onclick="insertMemoLink(\''+m.id+'\',\''+title.replace(/'/g,"\\'")+'\')" class="flex flex-col items-start w-full px-3 py-1.5 text-xs text-left hover:bg-muted transition-colors"><span class="font-medium text-foreground">'+escapeHtml(title)+'</span><span class="text-muted-fg truncate w-full">'+escapeHtml(preview)+'</span></button>';
}).join('');
}).catch(function() {});
}
function insertMemoLink(id, title) { insertContenteditable('['+title+'](/memos/'+id+')'); document.getElementById('link-memo-dropdown').classList.add('hidden'); }
function closeAllDropdowns() {
['emoji-picker','plus-menu','link-memo-dropdown'].forEach(function(id) { var el = document.getElementById(id); if (el) el.classList.add('hidden'); });
document.querySelectorAll('.vis-dropdown-menu').forEach(function(el) { el.classList.add('hidden'); });
}
function escapeHtml(s) { var d = document.createElement('div'); d.appendChild(document.createTextNode(s)); return d.innerHTML; }
/* ── Slash Commands (fallback version for contenteditable) ── */
var FALLBACK_SLASH_COMMANDS = [
{ label: 'Heading 1', insert: '# ', icon: '<svg class="w-4 h-4" fill="none" stroke="currentColor" viewBox="0 0 24 24"><path stroke-linecap="round" stroke-linejoin="round" stroke-width="2" d="M4 6h16M4 12h16M4 18h7"/></svg>' },
{ label: 'Heading 2', insert: '## ', icon: '<svg class="w-4 h-4" fill="none" stroke="currentColor" viewBox="0 0 24 24"><path stroke-linecap="round" stroke-linejoin="round" stroke-width="2" d="M4 6h16M4 12h16M4 18h7"/></svg>' },
{ label: 'Bold', command: 'toggleBold', icon: '<svg class="w-4 h-4" fill="none" stroke="currentColor" viewBox="0 0 24 24"><path stroke-linecap="round" stroke-linejoin="round" stroke-width="2" d="M6 4h8a4 4 0 014 4 4 4 0 01-4 4H6z"/><path d="M6 12h9a4 4 0 010 8H6z"/></svg>' },
{ label: 'Italic', command: 'toggleItalic', icon: '<svg class="w-4 h-4" fill="none" stroke="currentColor" viewBox="0 0 24 24"><path stroke-linecap="round" stroke-linejoin="round" stroke-width="2" d="M10 4h6m-2 0l-6 16"/></svg>' },
{ label: 'Bullet List', command: 'toggleBulletList', insert: '- ', icon: '<svg class="w-4 h-4" fill="none" stroke="currentColor" viewBox="0 0 24 24"><path stroke-linecap="round" stroke-linejoin="round" stroke-width="2" d="M8 6h13M8 12h13M8 18h13M3 6h.01M3 12h.01M3 18h.01"/></svg>' },
{ label: 'Numbered List', command: 'toggleOrderedList', insert: '1. ', icon: '<svg class="w-4 h-4" fill="none" stroke="currentColor" viewBox="0 0 24 24"><path stroke-linecap="round" stroke-linejoin="round" stroke-width="2" d="M9 5h11M9 12h11M9 19h11M5 5v.01M5 12v.01M5 19v.01"/></svg>' },
{ label: 'Code Block', command: 'toggleCodeBlock', icon: '<svg class="w-4 h-4" fill="none" stroke="currentColor" viewBox="0 0 24 24"><path stroke-linecap="round" stroke-linejoin="round" stroke-width="2" d="M10 20l4-16m4 4l4 4-4 4M6 16l-4-4 4-4"/></svg>' },
{ label: 'Blockquote', command: 'toggleBlockquote', insert: '> ', icon: '<svg class="w-4 h-4" fill="none" stroke="currentColor" viewBox="0 0 24 24"><path stroke-linecap="round" stroke-linejoin="round" stroke-width="2" d="M4 6h16M4 10h16M4 14h16M4 18h16"/></svg>' },
{ label: 'Todo List', command: 'toggleTaskList', insert: '- [ ] ', icon: '<svg class="w-4 h-4" fill="none" stroke="currentColor" viewBox="0 0 24 24"><path stroke-linecap="round" stroke-linejoin="round" stroke-width="2" d="M9 11l3 3L22 4"/></svg>' },
{ label: 'Table', command: 'insertTable', params: { rows: 3, cols: 3 }, insert: '| Col1 | Col2 |\n|------|------|\n| Cell | Cell |', icon: '<svg class="w-4 h-4" fill="none" stroke="currentColor" viewBox="0 0 24 24"><path stroke-linecap="round" stroke-linejoin="round" stroke-width="2" d="M3 10h18M3 14h18M3 18h18M3 6h18"/></svg>' },
{ label: 'Code', command: 'toggleCode', icon: '<svg class="w-4 h-4" fill="none" stroke="currentColor" viewBox="0 0 24 24"><path stroke-linecap="round" stroke-linejoin="round" stroke-width="2" d="M10 20l4-16m4 4l4 4-4 4M6 16l-4-4 4-4"/></svg>' },
];
function applySlashCommand(cmd) {
var ed = window.tiptapEditor;
if (ed) {
if (cmd.command) {
var chain = ed.chain().focus();
if (typeof chain[cmd.command] === 'function') {
var cursorPos = ed.state.selection.$anchor.pos;
var textBefore = ed.state.doc.textBetween(0, cursorPos, '\n', '');
var match = textBefore.match(/(^|\s)\/([a-z]*)$/i);
if (match) {
var slashStart = cursorPos - (match[0].length - (match[1] ? match[1].length : 0));
chain = chain.deleteRange({ from: slashStart, to: cursorPos });
}
if (cmd.params) {
chain[cmd.command](cmd.params).run();
} else {
chain[cmd.command]().run();
}
}
} else if (cmd.insert) {
var cursorPos = ed.state.selection.$anchor.pos;
var textBefore = ed.state.doc.textBetween(0, cursorPos, '\n', '');
var match = textBefore.match(/(^|\s)\/([a-z]*)$/i);
if (match) {
var slashStart = cursorPos - (match[0].length - (match[1] ? match[1].length : 0));
ed.chain().focus().deleteRange({ from: slashStart, to: cursorPos }).insertContent(cmd.insert).run();
}
}
} else {
var el = document.getElementById('memo-editor');
if (!el) return;
var cursor = getTextOffset(el);
var text = getEditorText();
var before = text.substring(0, cursor);
var match = before.match(/(^|\s)\/([a-z]*)$/i);
if (match) {
var slashStart = match.index + (match[1] ? match[1].length : 0);
var prefix = before.substring(0, slashStart);
var after = text.substring(cursor);
var newText = prefix + (cmd.insert || '') + after;
el.innerText = newText;
var newPos = slashStart + (cmd.insert || '').length;
restoreCursor(el, Math.min(newPos, newText.length));
}
}
document.getElementById('slash-menu').classList.add('hidden');
document.getElementById('memo-editor-input').value = getTiptapMarkdown();
}
function checkSlashCommand(el) {
var text = getEditorText();
var cursor = getTextOffset(el);
var before = text.substring(0, cursor);
var match = before.match(/(^|\s)\/([a-z]*)$/i);
if (match) {
showSlashMenu(match[2] || '', el);
} else {
document.getElementById('slash-menu').classList.add('hidden');
}
}
var _slashFilteredCommands = [];
var _slashSelectedIdx = 0;
function _highlightSlashItem() {
var menu = document.getElementById('slash-menu');
if (!menu) return;
var btns = menu.querySelectorAll('button');
btns.forEach(function(b, i) {
b.classList.toggle('bg-muted', i === _slashSelectedIdx);
b.classList.toggle('text-foreground', i === _slashSelectedIdx);
if (i === _slashSelectedIdx) b.scrollIntoView({ block: 'nearest' });
});
}
function hideSlashMenu() {
var menu = document.getElementById('slash-menu');
if (!menu) return;
menu.classList.add('hidden');
if (window._slashHideTimer) {
clearTimeout(window._slashHideTimer);
window._slashHideTimer = null;
}
}
function showSlashMenu(query, _el, _view) {
var menu = document.getElementById('slash-menu');
_slashFilteredCommands = query ? FALLBACK_SLASH_COMMANDS.filter(function(c) { return c.label.toLowerCase().includes(query); }) : FALLBACK_SLASH_COMMANDS;
if (!_slashFilteredCommands.length) { hideSlashMenu(); return; }
menu.innerHTML = '';
_slashFilteredCommands.forEach(function(cmd, i) {
var btn = document.createElement('button');
btn.type = 'button';
btn.dataset.index = i;
btn.className = 'flex items-center gap-2 w-full px-3 py-1.5 text-xs text-foreground transition-colors';
btn.innerHTML = cmd.icon + cmd.label;
btn.onclick = function(e) { e.stopPropagation(); e.preventDefault(); hideSlashMenu(); applySlashCommand(cmd); };
btn.onmouseenter = function() { _slashSelectedIdx = i; _highlightSlashItem(); };
menu.appendChild(btn);
});
_slashSelectedIdx = 0;
_highlightSlashItem();
var rect = null;
if (_view && typeof _view.coordsAtPos === 'function') {
try {
var pos = _view.state.selection.$anchor.pos;
rect = _view.coordsAtPos(pos);
} catch(e) {}
}
if (!rect || (rect.top === 0 && rect.left === 0 && rect.bottom === 0 && rect.right === 0)) {
var sel = window.getSelection();
if (sel.rangeCount) rect = sel.getRangeAt(0).getBoundingClientRect();
}
if (!rect || (rect.top === 0 && rect.left === 0 && rect.bottom === 0 && rect.right === 0)) {
var el = document.getElementById('memo-editor') || document.getElementById('memo-edit-memo-editor-{{ id }}');
if (el) rect = el.getBoundingClientRect();
}
if (!rect) return;
menu.style.cssText = 'position: fixed; visibility: hidden; display: block;';
menu.classList.remove('hidden');
var menuHeight = menu.offsetHeight;
var menuWidth = menu.offsetWidth || 260;
if (menuHeight === 0) menuHeight = 200;
var spaceBelow = window.innerHeight - rect.bottom;
var spaceAbove = rect.top;
var offset = 8;
var top;
if (spaceBelow >= menuHeight + offset || spaceBelow >= spaceAbove) {
top = rect.bottom + offset;
} else {
top = rect.top - menuHeight - offset;
}
top = Math.max(8, Math.min(top, window.innerHeight - menuHeight - 8));
var left = Math.min(Math.max(rect.left - 16, 8), window.innerWidth - menuWidth - 8);
menu.style.top = top + 'px';
menu.style.left = left + 'px';
menu.style.visibility = 'visible';
menu.style.removeProperty('display');
}
function showImageResizeMenu(img, x, y) {
var menu = document.getElementById('image-resize-menu');
if (!menu) return;
menu.style.top = Math.max(4, Math.min(y, window.innerHeight - menu.offsetHeight - 4)) + 'px';
menu.style.left = Math.max(4, Math.min(x, window.innerWidth - 134)) + 'px';
menu.classList.remove('hidden');
}
function setImageWidth(width) {
var menu = document.getElementById('image-resize-menu');
if (menu) menu.classList.add('hidden');
var ed = window.tiptapEditor;
if (!ed) return;
var pos = window._clickedImgPos;
if (pos !== null && pos !== undefined) {
var node = ed.state.doc.nodeAt(pos);
if (node && node.type.name === 'image') {
var src = node.attrs.src || '';
var cleanSrc = src.replace(/[?#].*$/, '');
var pct = parseFloat(width);
var newSrc = width === '100%' || (pct >= 100) ? cleanSrc : cleanSrc + '?w=' + pct;
ed.chain().focus().setNodeSelection(pos).updateAttributes('image', { src: newSrc, style: 'width: ' + width }).run();
return;
}
}
ed.chain().focus().updateAttributes('image', { style: 'width: ' + width }).run();
}
document.addEventListener('click', function(e) {
var menu = document.getElementById('image-resize-menu');
if (menu && !menu.classList.contains('hidden') && !menu.contains(e.target) && e.target.tagName !== 'IMG') {
menu.classList.add('hidden');
}
});
function closeImageModal() {
document.getElementById('image-modal').classList.add('hidden');
}
function highlightActiveNote() {
var timeline = document.getElementById('timeline');
var activeId = timeline ? timeline.getAttribute('data-active-note-id') : null;
document.querySelectorAll('#notes-list-container [data-note-id], #unified-sidebar-content [data-note-id]').forEach(function(el) {
el.classList.remove('bg-accent-50', 'dark:bg-accent-900/20');
var title = el.querySelector('.note-title');
if (title) title.classList.remove('text-accent-600', 'dark:text-accent-600', 'font-semibold');
});
if (!activeId) return;
var selected = document.querySelector('#notes-list-container [data-note-id="' + activeId + '"]') ||
document.querySelector('#unified-sidebar-content [data-note-id="' + activeId + '"]');
if (selected) {
selected.classList.add('bg-accent-50', 'dark:bg-accent-900/20');
var title = selected.querySelector('.note-title');
if (title) title.classList.add('text-accent-600', 'dark:text-accent-600', 'font-semibold');
}
}
function openNote(id) {
var timeline = document.getElementById('timeline');
if (timeline) timeline.setAttribute('data-active-note-id', String(id));
highlightActiveNote();
var editorSection = document.getElementById('editor-section');
var backBar = document.getElementById('note-back-bar');
if (editorSection) editorSection.classList.add('hidden');
if (backBar) backBar.classList.remove('hidden');
htmx.ajax('GET', '/memos/' + id + '/fragment', { target: '#timeline', swap: 'innerHTML' });
closeMobileSidebar();
}
function backToFeed() {
var editorSection = document.getElementById('editor-section');
var backBar = document.getElementById('note-back-bar');
if (editorSection) editorSection.classList.remove('hidden');
if (backBar) backBar.classList.add('hidden');
var timeline = document.getElementById('timeline');
if (timeline) timeline.removeAttribute('data-active-note-id');
highlightActiveNote();
htmx.ajax('GET', '/memos-feed', { target: '#timeline', swap: 'innerHTML' });
}
function toggleSection(sectionId, btn) {
var parent = btn ? btn.parentElement : document;
var section = parent.querySelector('#' + sectionId);
if (!section) return;
var isHidden = section.classList.contains('hidden');
section.classList.toggle('hidden');
var chevron = btn ? btn.querySelector('.section-chevron') : null;
if (chevron) {
chevron.classList.toggle('rotate-180', !isHidden);
}
localStorage.setItem('sidebar-' + sectionId, isHidden ? 'open' : 'closed');
}
document.addEventListener('DOMContentLoaded', function() {
['calendar-section', 'tags-section'].forEach(function(id) {
var saved = localStorage.getItem('sidebar-' + id);
var el = document.getElementById(id);
if (!el) return;
if (saved === 'open') {
el.classList.remove('hidden');
}
});
});
function closeNote() {
document.getElementById('note-detail-view').classList.add('hidden');
document.getElementById('note-detail-view').innerHTML = '';
document.getElementById('timeline-view').classList.remove('hidden');
}
/* ── Memo CRUD ── */
var editorAttachments = [];
function renderEditorAttachments() {}
function uploadFilesForEditor(files) {
var fd = new FormData();
for (var i = 0; i < files.length; i++) fd.append('files', files[i]);
return fetch('/resources', { method: 'POST', body: fd })
.then(function(r) { return r.json(); })
.then(function(data) {
if (data.replaced && data.replaced.length) {
for (var j = 0; j < data.replaced.length; j++) {
showToast('"' + data.replaced[j].original_name + '" already exists — replaced', 'info');
}
}
if (data.resources && data.resources.length) {
var ed = window.tiptapEditor;
for (var j = 0; j < data.resources.length; j++) {
var md = data.resources[j].markdown;
if (ed) {
ed.chain().focus().insertContent(md).run();
var lastNode = ed.state.doc.lastChild;
if (!lastNode || lastNode.type.name === 'image' || lastNode.type.name === 'hardBreak') {
ed.commands.insertContentAt(ed.state.doc.content.size, { type: 'paragraph' });
}
ed.commands.focus('end');
} else {
insertContenteditable(md);
}
}
htmx.trigger('body', 'memoUpdated');
}
})
.catch(function() { showToast('Upload failed', 'error'); });
}
function handleDrop(event) {
var files = [];
if (event.dataTransfer.items) {
for (var i = 0; i < event.dataTransfer.items.length; i++) {
if (event.dataTransfer.items[i].kind === 'file') {
var f = event.dataTransfer.items[i].getAsFile();
if (f) files.push(f);
}
}
} else {
for (var i = 0; i < event.dataTransfer.files.length; i++) {
files.push(event.dataTransfer.files[i]);
}
}
if (files.length) uploadFilesForEditor(files);
}
function uploadFiles(files) {
var fd = new FormData();
for (var i = 0; i < files.length; i++) fd.append('files', files[i]);
return fetch('/resources', { method: 'POST', body: fd })
.then(function(r) { return r.json(); })
.then(function(data) {
if (data.replaced && data.replaced.length) {
for (var j = 0; j < data.replaced.length; j++) {
showToast('"' + data.replaced[j].original_name + '" already exists — replaced', 'info');
}
}
refreshResourcesPanel();
htmx.trigger('body', 'memoUpdated');
})
.catch(function() { showToast('Upload failed', 'error'); });
}
function refreshResourcesPanel() {
var container = document.getElementById('resources-panel');
if (container) {
htmx.ajax('GET', '/resources-feed?offset=0', { target: '#resources-panel', swap: 'innerHTML' });
}
}
function updateBulkActions() {
var checked = document.querySelectorAll('.res-checkbox:checked').length;
var el = document.getElementById('bulk-actions');
if (el) el.classList.toggle('hidden', checked === 0);
var count = document.getElementById('selected-count');
if (count) count.textContent = checked;
}
function toggleSelectAll() {
var sel = document.getElementById('select-all');
document.querySelectorAll('.res-checkbox').forEach(function(cb) { cb.checked = sel.checked; });
updateBulkActions();
}
function deleteSelectedResources() {
var checked = document.querySelectorAll('.res-checkbox:checked');
var ids = [];
checked.forEach(function(cb) { ids.push(parseInt(cb.value)); });
if (!ids.length || !confirm('Delete ' + ids.length + ' resource(s)?')) return;
fetch('/resources/bulk-delete', { method: 'POST', headers: { 'Content-Type': 'application/json' }, body: JSON.stringify({ ids: ids }) })
.then(function(r) { return r.json(); })
.then(function() { refreshResourcesPanel(); htmx.trigger('body', 'memoUpdated'); })
.catch(function() { showToast('Delete failed', 'error'); });
}
function updateNoteBulkActions() {
var checked = document.querySelectorAll('.note-checkbox:checked').length;
var el = document.getElementById('note-bulk-actions');
if (el) el.classList.toggle('hidden', checked === 0);
var count = document.getElementById('note-selected-count');
if (count) count.textContent = checked;
document.querySelectorAll('.note-checkbox').forEach(function(cb) {
var row = cb.closest('[data-note-id]');
if (row) row.classList.toggle('bg-accent-50/30', cb.checked);
if (row) row.classList.toggle('dark:bg-accent-900/10', cb.checked);
});
}
function toggleSelectAllNotes() {
var sel = document.getElementById('note-select-all');
document.querySelectorAll('.note-checkbox').forEach(function(cb) {
cb.checked = sel.checked;
var row = cb.closest('[data-note-id]');
if (row) row.classList.toggle('bg-accent-50/30', cb.checked);
if (row) row.classList.toggle('dark:bg-accent-900/10', cb.checked);
});
updateNoteBulkActions();
}
function deleteSelectedNotes() {
var checked = document.querySelectorAll('.note-checkbox:checked');
var ids = [];
checked.forEach(function(cb) { ids.push(parseInt(cb.value)); });
if (!ids.length || !confirm('Delete ' + ids.length + ' note(s)?')) return;
fetch('/memos/bulk-delete', { method: 'POST', headers: { 'Content-Type': 'application/json' }, body: JSON.stringify({ ids: ids }) })
.then(function(r) { return r.json(); })
.then(function() {
htmx.trigger('body', 'memoUpdated');
var timeline = document.getElementById('timeline');
if (timeline) {
timeline.removeAttribute('data-active-note-id');
htmx.ajax('GET', '/memos-feed', { target: '#timeline', swap: 'innerHTML' });
}
var editorSection = document.getElementById('editor-section');
if (editorSection) editorSection.classList.remove('hidden');
var backBar = document.getElementById('note-back-bar');
if (backBar) backBar.classList.add('hidden');
})
.catch(function() { showToast('Delete failed', 'error'); });
}
function editMemo(id) {
var container = document.getElementById('memo-' + id);
if (!container) return;
container.querySelector('.memo-display').classList.add('hidden');
var editEl = document.getElementById('memo-edit-' + id);
editEl.classList.remove('hidden');
editEl.setAttribute('hx-get', '/memos/' + id + '/edit');
editEl.setAttribute('hx-trigger', 'load');
editEl.setAttribute('hx-swap', 'innerHTML');
htmx.process(editEl);
htmx.trigger(editEl, 'load');
}
function cancelEdit(id) {
var container = document.getElementById('memo-' + id);
if (!container) return;
container.querySelector('.memo-display').classList.remove('hidden');
var editEl = document.getElementById('memo-edit-' + id);
editEl.classList.add('hidden');
editEl.innerHTML = '';
}
function deleteMemo(id) {
if (!confirm('Delete this note?')) return;
var btn = document.querySelector('#memo-' + id + ' button[onclick*="deleteMemo"]');
if (btn) btn.disabled = true;
htmx.ajax('DELETE', '/memos/' + id, { target: '#memo-' + id, swap: 'outerHTML' });
var timeline = document.getElementById('timeline');
var activeId = timeline ? timeline.getAttribute('data-active-note-id') : null;
if (activeId && String(activeId) === String(id)) {
setTimeout(function() { backToFeed(); }, 300);
}
}
function toggleVisDropdown(btn) {
var menu = btn.parentElement.querySelector('.vis-dropdown-menu');
if (!menu) return;
if (menu.classList.contains('hidden')) {
closeAllDropdowns();
menu.classList.remove('hidden');
} else {
menu.classList.add('hidden');
}
}
function applyVis(dd, btn, vis) {
dd.querySelectorAll('.vis-dropdown-menu button').forEach(function(b) { b.classList.remove('bg-muted'); });
btn.classList.add('bg-muted');
dd.querySelector('.vis-label').innerHTML = btn.innerHTML;
dd.querySelector('input[name="visibility"]').value = vis;
dd.querySelector('.vis-dropdown-menu').classList.add('hidden');
}
function selectVis(btn) {
var dd = btn.closest('.visibility-dropdown');
if (!dd) return;
var vis = btn.dataset.visValue;
if (vis === 'protected') {
var isEdit = dd.classList.contains('edit-vis');
showVisPwdModal(isEdit);
visPwdCallback = function(pwd) {
dd.querySelector('input[name="visibility_password"]').value = pwd || '';
applyVis(dd, btn, 'protected');
};
return;
}
dd.querySelector('input[name="visibility_password"]').value = '';
applyVis(dd, btn, vis);
}
function updateVisUI(dd) {
var val = dd.dataset.vis || 'private';
var btn = dd.querySelector('.vis-dropdown-menu button[data-vis-value="' + val + '"]');
if (btn) {
dd.querySelectorAll('.vis-dropdown-menu button').forEach(function(b) { b.classList.remove('bg-muted'); });
btn.classList.add('bg-muted');
dd.querySelector('.vis-label').innerHTML = btn.innerHTML;
dd.querySelector('input[name="visibility"]').value = val;
dd.querySelector('.vis-dropdown-menu').classList.add('hidden');
}
}
function insertNewMemoIntoTimeline(html) {
var timeline = document.getElementById('timeline');
if (!timeline) return;
var emptyState = timeline.querySelector('.py-16');
if (emptyState) emptyState.remove();
var firstGroup = timeline.firstElementChild;
if (firstGroup && firstGroup.classList.contains('mb-4') && firstGroup.textContent.includes('Today')) {
var memosList = firstGroup.querySelector('.space-y-2');
if (memosList) {
memosList.insertAdjacentHTML('afterbegin', html);
var countSpan = firstGroup.querySelector('.font-mono');
if (countSpan) {
var count = parseInt(countSpan.textContent) || 0;
countSpan.textContent = count + 1;
}
resetEditor();
htmx.trigger('body', 'memoUpdated');
return;
}
}
var d = new Date();
var year = d.getFullYear();
var month = String(d.getMonth() + 1).padStart(2, '0');
var day = String(d.getDate()).padStart(2, '0');
var todayDateStr = year + '-' + month + '-' + day;
var newGroupHtml = 
'<div class="mb-4">' +
'<div class="flex items-center gap-2 mb-3">' +
'<span class="text-xs font-medium text-muted-fg uppercase tracking-wider">Today</span>' +
'<span class="text-xs text-muted-fg">' + todayDateStr + '</span>' +
'<div class="flex-1 border-t border-border"></div>' +
'<span class="text-xs text-muted-fg font-mono">1</span>' +
'</div>' +
'<div class="space-y-2">' +
html +
'</div>' +
'</div>';
timeline.insertAdjacentHTML('afterbegin', newGroupHtml);
resetEditor();
htmx.trigger('body', 'memoUpdated');
}
function handleEditorImageClick(view, pos, event) {
var img = event.target;
if (img.tagName !== 'IMG') {
var images = view.dom.querySelectorAll('img');
for (var i = 0; i < images.length; i++) {
var rect = images[i].getBoundingClientRect();
if (event.clientY >= rect.top && event.clientY <= rect.bottom) {
img = images[i];
break;
}
}
}
if (img && img.tagName === 'IMG') {
var rect = img.getBoundingClientRect();
var isLeft = event.clientX < rect.left;
var isRight = event.clientX > rect.right;
if (isLeft || isRight) {
event.preventDefault();
var imgPos = view.posAtDOM(img, 0);
if (imgPos !== null && imgPos !== undefined) {
var ed = view.editor || window.tiptapEditor;
if (ed) {
if (isLeft) {
ed.commands.setTextSelection(imgPos);
} else {
var nodeSize = view.state.doc.nodeAt(imgPos).nodeSize;
ed.commands.setTextSelection(imgPos + nodeSize);
}
view.focus();
return true;
}
}
}
}
return false;
}
function handleEditorImageTextInput(view, from, to, text) {
var $from = view.state.selection.$from;
if ($from.nodeAfter && $from.nodeAfter.type.name === 'image') {
var blockPos = $from.before(1);
var ed = view.editor || window.tiptapEditor;
if (ed) {
ed.chain()
.insertContentAt(blockPos, { type: 'paragraph', content: [{ type: 'text', text: text }] })
.setTextSelection(blockPos + 1 + text.length)
.focus()
.run();
return true;
}
}
if ($from.nodeBefore && $from.nodeBefore.type.name === 'image') {
var blockPos = $from.after(1);
var ed = view.editor || window.tiptapEditor;
if (ed) {
ed.chain()
.insertContentAt(blockPos, { type: 'paragraph', content: [{ type: 'text', text: text }] })
.setTextSelection(blockPos + 1 + text.length)
.focus()
.run();
return true;
}
}
return false;
}
function handleEditorImagePaste(view, event, slice) {
var $from = view.state.selection.$from;
var text = slice ? slice.content.textBetween(0, slice.content.size) : '';
if (!text) return false;
if ($from.nodeAfter && $from.nodeAfter.type.name === 'image') {
var blockPos = $from.before(1);
var ed = view.editor || window.tiptapEditor;
if (ed) {
ed.chain()
.insertContentAt(blockPos, { type: 'paragraph', content: [{ type: 'text', text: text }] })
.setTextSelection(blockPos + 1 + text.length)
.focus()
.run();
return true;
}
}
if ($from.nodeBefore && $from.nodeBefore.type.name === 'image') {
var blockPos = $from.after(1);
var ed = view.editor || window.tiptapEditor;
if (ed) {
ed.chain()
.insertContentAt(blockPos, { type: 'paragraph', content: [{ type: 'text', text: text }] })
.setTextSelection(blockPos + 1 + text.length)
.focus()
.run();
return true;
}
}
return false;
}
/* ── Tiptap Init (loaded from local bundle) ── */
(function() {
var mountEl = document.getElementById('memo-editor');
if (!mountEl) return;
if (window.Tiptap) {
var Editor = window.Tiptap.Editor;
var StarterKit = window.Tiptap.StarterKit;
var Placeholder = window.Tiptap.Placeholder;
var Markdown = window.Tiptap.Markdown;
var CodeBlockLowlight = window.Tiptap.CodeBlockLowlight;
var lowlight = window.Tiptap.lowlight;
var ImageExt = window.Tiptap.Image.extend({
inline: true,
group: 'inline',
addAttributes() { return { src: { default: null }, alt: { default: null }, title: { default: null }, style: { default: 'width: 75%' } } },
parseHTML() { return [{ tag: 'img[src]', getAttrs: function(dom) { var src=dom.getAttribute('src')||''; var style=null; var q=src.indexOf('?'); if(q>=0){var p=src.substring(q+1).split('&');for(var i=0;i<p.length;i++){var kv=p[i].split('=');if(kv[0]==='w'){var v=parseFloat(kv[1]);if(!isNaN(v)&&v>0&&v<100){style='width: '+v+'%'}}}} return{src:src,alt:dom.getAttribute('alt')||'',title:dom.getAttribute('title')||'',style:style} } }]; },
renderHTML({node}) { var src=node.attrs.src||''; var alt=node.attrs.alt||''; var title=node.attrs.title||''; var style=node.attrs.style||'width: 75%'; return ['img',{src:src,alt:alt,title:title,style:style}] },
});
var LinkExt = window.Tiptap.Link;
var TableExt = window.Tiptap.Table;
var TableRowExt = window.Tiptap.TableRow;
var TableCellExt = window.Tiptap.TableCell;
var TableHeaderExt = window.Tiptap.TableHeader;
var TaskListExt = window.Tiptap.TaskList;
var TaskItemExt = window.Tiptap.TaskItem;
window._clickedImgPos = null;
mountEl.classList.remove('animate-pulse', 'bg-muted/30', 'rounded', 'shimmer-bg');
mountEl.removeAttribute('contenteditable');
mountEl.removeAttribute('data-empty');
mountEl.oninput = null;
mountEl.onkeydown = null;
mountEl.addEventListener('click', function(e) {
if (window.tiptapEditor && !e.target.closest('.ProseMirror')) {
window.tiptapEditor.commands.focus('end');
}
});
window.tiptapEditor = new Editor({
element: mountEl,
extensions: [
StarterKit.configure({ heading: { levels: [1, 2, 3] }, codeBlock: false }),
Placeholder.configure({ placeholder: "What's on your mind..." }),
Markdown,
CodeBlockLowlight.configure({ lowlight: lowlight }),
ImageExt,
LinkExt.configure({ openOnClick: false }),
TableExt,
TableRowExt,
TableCellExt,
TableHeaderExt,
TaskListExt,
TaskItemExt.configure({ nested: true }),
],
editorProps: {
attributes: { class: 'focus:outline-none text-base leading-snug' },
handleDrop: function(view, event, slice, moved) {
if (event.dataTransfer && event.dataTransfer.items && event.dataTransfer.items.length) {
var files = [];
for (var i = 0; i < event.dataTransfer.items.length; i++) {
if (event.dataTransfer.items[i].kind === 'file') {
var f = event.dataTransfer.items[i].getAsFile();
if (f) files.push(f);
}
}
if (files.length) { uploadFilesForEditor(files); event.preventDefault(); return true; }
}
return false;
},
handlePaste: function(view, event, slice) {
if (handleEditorImagePaste(view, event, slice)) {
return true;
}
if (event.clipboardData && event.clipboardData.files && event.clipboardData.files.length) {
event.preventDefault(); event.stopPropagation();
uploadFilesForEditor(event.clipboardData.files);
return true;
}
return false;
},
handleClick: handleEditorImageClick,
handleTextInput: handleEditorImageTextInput,
handleDoubleClick: function(view, pos, event) {
if (event.target && event.target.tagName === 'IMG') {
event.preventDefault();
var imgPos = view.posAtDOM(event.target, 0);
if (imgPos !== null && imgPos !== undefined) pos = imgPos;
_clickedImgView = view;
_clickedImgPos = pos;
showImageResizeMenu(event.target, event.clientX, event.clientY);
return true;
}
return false;
},
handleKeyDown: function(view, event) {
var _sm = document.getElementById('slash-menu');
if (_sm && !_sm.classList.contains('hidden')) {
if (event.key === 'ArrowDown') {
event.preventDefault();
if (_slashSelectedIdx < _slashFilteredCommands.length - 1) _slashSelectedIdx++;
else _slashSelectedIdx = 0;
_highlightSlashItem();
return true;
}
if (event.key === 'ArrowUp') {
event.preventDefault();
if (_slashSelectedIdx > 0) _slashSelectedIdx--;
else _slashSelectedIdx = _slashFilteredCommands.length - 1;
_highlightSlashItem();
return true;
}
if (event.key === 'Enter') {
event.preventDefault();
var cmd = _slashFilteredCommands[_slashSelectedIdx];
if (cmd) { hideSlashMenu(); applySlashCommand(cmd); }
return true;
}
if (event.key === 'Escape') {
hideSlashMenu();
return true;
}
if ((event.key.length === 1 || event.key === 'Backspace') && !event.ctrlKey && !event.metaKey && !event.altKey) {
setTimeout(function() {
var tb = view.state.doc.textBetween(0, view.state.selection.$anchor.pos, '\n', '');
var m = tb.match(/(^|\s)\/([a-z]*)$/i);
if (m) { showSlashMenu(m[2] || '', mountEl, view); }
else { hideSlashMenu(); }
}, 0);
}
return false;
}
if (event.key === 'ArrowDown') {
var state = view.state;
var $head = state.selection.$head;
for (var d = $head.depth; d >= 0; d--) {
var node = $head.node(d);
if (node && node.type.name === 'heading') {
var afterPos = $head.after(d);
if (afterPos >= state.doc.content.size) {
event.preventDefault();
var paragraph = state.schema.nodes.paragraph.create();
var tr = state.tr.insert(afterPos, paragraph);
var selClass = state.selection.constructor;
var newResolved = tr.doc.resolve(afterPos + 1);
tr.setSelection(selClass.near(newResolved));
view.dispatch(tr);
return true;
}
break;
}
}
}
if (event.key === '/') {
setTimeout(function() { showSlashMenu('', mountEl, view); }, 0);
return false;
}
return false;
}
},
onUpdate: function() {
var ed = window.tiptapEditor;
if (!ed) return;
var isEmpty = ed.isEmpty;
if (isEmpty) {
document.getElementById('memo-editor-input').value = '';
} else {
var html = ed.getHTML();
try {
if (html.indexOf('?w=') >= 0) {
document.getElementById('memo-editor-input').value = html;
isEmpty = false;
} else {
var ts = new TurndownService({ headingStyle: 'atx' });
var md2 = ts.turndown(html);
document.getElementById('memo-editor-input').value = md2;
isEmpty = md2.trim() === '';
}
} catch(e) { isEmpty = ed.getText().trim() === ''; }
}
updateSaveButtonState();
},
});
} else {
mountEl.classList.remove('animate-pulse', 'bg-muted/30', 'rounded', 'shimmer-bg');
mountEl.setAttribute('contenteditable', 'true');
}
})();
(function() {
var dd = document.querySelector('#memo-form .visibility-dropdown');
if (dd) updateVisUI(dd);
})();
document.addEventListener('click', function() { hideSlashMenu(); });
document.addEventListener('click', function(e) {
var emoji = document.getElementById('emoji-picker');
var plus  = document.getElementById('plus-menu');
var link  = document.getElementById('link-memo-dropdown');
var visDropdowns = document.querySelectorAll('.vis-dropdown-menu');
if (emoji && !emoji.classList.contains('hidden') && !emoji.contains(e.target)) emoji.classList.add('hidden');
if (plus  && !plus.classList.contains('hidden')  && !plus.contains(e.target))  plus.classList.add('hidden');
if (link  && !link.classList.contains('hidden')  && !link.contains(e.target))  link.classList.add('hidden');
visDropdowns.forEach(function(vis) {
if (!vis.classList.contains('hidden') && !vis.contains(e.target)) vis.classList.add('hidden');
});
});
</script>
{% endblock %}