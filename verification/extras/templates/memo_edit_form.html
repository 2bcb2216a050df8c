<form id="memo-edit-form-{{ id }}" class="memo-editor mb-0 bg-card border border-border rounded-xl shadow-sm"
hx-put="/memos/{{ id }}"
hx-target="#memo-{{ id }}"
hx-swap="outerHTML"
hx-on::after-request="if(event.detail.successful){htmx.trigger('body','memoUpdated')}"
ondragover="event.preventDefault(); this.classList.add('border-accent-500')"
ondragleave="event.preventDefault(); this.classList.remove('border-accent-500')"
ondrop="event.preventDefault(); this.classList.remove('border-accent-500'); handleDrop(event)"
onsubmit="document.getElementById('memo-edit-input-{{ id }}').value = getTiptapMarkdown();">
<div class="px-3 lg:px-4 pt-3 pb-1 relative">
<div id="memo-edit-memo-editor-{{ id }}"
class="w-full bg-transparent text-foreground text-base leading-snug min-h-[6rem] tiptap-editor max-w-none focus:outline-none"
data-placeholder="What's on your mind..."
data-content="{{ content|e }}"
oninput="onFallbackInput(this)"
onkeydown="onFallbackKeydown(event, this)"></div>
<div id="attachment-preview-container" class="border border-border rounded-xl bg-card overflow-hidden hidden">
<div id="attachment-preview-list" class="flex flex-col"></div>
</div>
<input type="hidden" name="content" id="memo-edit-input-{{ id }}" value="{{ content|e }}">
<p class="text-xs text-muted-fg text-center mt-2 select-none hidden lg:block">Use <kbd class="px-1 py-0.5 bg-muted border border-border rounded text-[10px] font-mono">/</kbd> slash commands or markdown syntax to format</p>
</div>
<script>
(function() {
var mountEl = document.getElementById('memo-edit-memo-editor-{{ id }}');
if (!mountEl) return;
if (window.Tiptap) {
var Editor = window.Tiptap.Editor;
var StarterKit = window.Tiptap.StarterKit;
var Placeholder = window.Tiptap.Placeholder;
var Markdown = window.Tiptap.Markdown;
var CodeBlockLowlight = window.Tiptap.CodeBlockLowlight;
var lowlight = window.Tiptap.lowlight;
var ImageExt = window.Tiptap.Image.extend({
inline: true,
group: 'inline',
addAttributes() { return { src: { default: null }, alt: { default: null }, title: { default: null }, style: { default: 'width: 75%' } } },
parseHTML() { return [{ tag: 'img[src]', getAttrs: function(dom) { var src=dom.getAttribute('src')||''; var style=null; var q=src.indexOf('?'); if(q>=0){var p=src.substring(q+1).split('&');for(var i=0;i<p.length;i++){var kv=p[i].split('=');if(kv[0]==='w'){var v=parseFloat(kv[1]);if(!isNaN(v)&&v>0&&v<100){style='width: '+v+'%'}}}} return{src:src,alt:dom.getAttribute('alt')||'',title:dom.getAttribute('title')||'',style:style} } }]; },
renderHTML({node}) { var src=node.attrs.src||''; var alt=node.attrs.alt||''; var title=node.attrs.title||''; var style=node.attrs.style||'width: 75%'; return ['img',{src:src,alt:alt,title:title,style:style}] },
});
var LinkExt = window.Tiptap.Link;
var TableExt = window.Tiptap.Table;
var TableRowExt = window.Tiptap.TableRow;
var TableCellExt = window.Tiptap.TableCell;
var TableHeaderExt = window.Tiptap.TableHeader;
var TaskListExt = window.Tiptap.TaskList;
var TaskItemExt = window.Tiptap.TaskItem;
mountEl.classList.remove('animate-pulse', 'bg-muted/30', 'rounded', 'shimmer-bg');
mountEl.removeAttribute('contenteditable');
mountEl.removeAttribute('data-empty');
mountEl.oninput = null;
mountEl.onkeydown = null;
var existingMd = mountEl.getAttribute('data-content') || '';
mountEl.removeAttribute('data-content');
window.tiptapEditor = new Editor({
element: mountEl,
extensions: [
StarterKit.configure({ heading: { levels: [1, 2, 3] }, codeBlock: false }),
Placeholder.configure({ placeholder: "What's on your mind..." }),
Markdown,
CodeBlockLowlight.configure({ lowlight: lowlight }),
ImageExt,
LinkExt.configure({ openOnClick: false }),
TableExt,
TableRowExt,
TableCellExt,
TableHeaderExt,
TaskListExt,
TaskItemExt.configure({ nested: true }),
],
editorProps: {
attributes: { class: 'focus:outline-none text-base leading-snug' },
handleDrop: function(view, event, slice, moved) {
if (event.dataTransfer && event.dataTransfer.items && event.dataTransfer.items.length) {
var files = [];
for (var i = 0; i < event.dataTransfer.items.length; i++) {
if (event.dataTransfer.items[i].kind === 'file') {
var f = event.dataTransfer.items[i].getAsFile();
if (f) files.push(f);
}
}
if (files.length) { uploadFilesForEditor(files); event.preventDefault(); return true; }
}
return false;
},
handlePaste: function(view, event, slice) {
if (handleEditorImagePaste(view, event, slice)) {
return true;
}
if (event.clipboardData && event.clipboardData.files && event.clipboardData.files.length) {
event.preventDefault(); event.stopPropagation();
uploadFilesForEditor(event.clipboardData.files);
return true;
}
return false;
},
handleClick: handleEditorImageClick,
handleTextInput: handleEditorImageTextInput,
handleDoubleClick: function(view, pos, event) {
if (event.target && event.target.tagName === 'IMG') {
event.preventDefault();
var imgPos = view.posAtDOM(event.target, 0);
if (imgPos !== null && imgPos !== undefined) pos = imgPos;
_clickedImgView = view;
_clickedImgPos = pos;
showImageResizeMenu(event.target, event.clientX, event.clientY);
return true;
}
return false;
},
handleKeyDown: function(view, event) {
var _sm = document.getElementById('slash-menu');
if (_sm && !_sm.classList.contains('hidden')) {
if (event.key === 'ArrowDown') {
event.preventDefault();
if (_slashSelectedIdx < _slashFilteredCommands.length - 1) _slashSelectedIdx++;
else _slashSelectedIdx = 0;
_highlightSlashItem();
return true;
}
if (event.key === 'ArrowUp') {
event.preventDefault();
if (_slashSelectedIdx > 0) _slashSelectedIdx--;
else _slashSelectedIdx = _slashFilteredCommands.length - 1;
_highlightSlashItem();
return true;
}
if (event.key === 'Enter') {
event.preventDefault();
var cmd = _slashFilteredCommands[_slashSelectedIdx];
if (cmd) { hideSlashMenu(); applySlashCommand(cmd); }
return true;
}
if (event.key === 'Escape') {
hideSlashMenu();
return true;
}
if ((event.key.length === 1 || event.key === 'Backspace') && !event.ctrlKey && !event.metaKey && !event.altKey) {
setTimeout(function() {
var tb = view.state.doc.textBetween(0, view.state.selection.$anchor.pos, '\n', '');
var m = tb.match(/(^|\s)\/([a-z]*)$/i);
if (m) { showSlashMenu(m[2] || '', mountEl, view); }
else { hideSlashMenu(); }
}, 0);
}
return false;
}
if (event.key === 'ArrowDown') {
var state = view.state;
var $head = state.selection.$head;
for (var d = $head.depth; d >= 0; d--) {
var node = $head.node(d);
if (node && node.type.name === 'heading') {
var afterPos = $head.after(d);
if (afterPos >= state.doc.content.size) {
event.preventDefault();
var paragraph = state.schema.nodes.paragraph.create();
var tr = state.tr.insert(afterPos, paragraph);
var selClass = state.selection.constructor;
var newResolved = tr.doc.resolve(afterPos + 1);
tr.setSelection(selClass.near(newResolved));
view.dispatch(tr);
return true;
}
break;
}
}
}
if (event.key === '/') {
setTimeout(function() { showSlashMenu('', mountEl, view); }, 0);
return false;
}
return false;
}
},
onUpdate: function() {
var ed = window.tiptapEditor;
if (!ed) return;
var isEmpty = ed.isEmpty;
if (isEmpty) {
document.getElementById('memo-edit-input-{{ id }}').value = '';
} else {
var html = ed.getHTML();
try {
if (html.indexOf('?w=') >= 0) {
document.getElementById('memo-edit-input-{{ id }}').value = html;
isEmpty = false;
} else {
var ts = new TurndownService({ headingStyle: 'atx' });
var md2 = ts.turndown(html);
document.getElementById('memo-edit-input-{{ id }}').value = md2;
isEmpty = md2.trim() === '';
}
} catch(e) { isEmpty = ed.getText().trim() === ''; }
}
var btn = document.getElementById('save-memo-edit-btn-{{ id }}');
if (btn) btn.disabled = isEmpty;
},
});
if (existingMd && existingMd.trim()) {
window.tiptapEditor.commands.setContent(existingMd, true);
}
} else {
mountEl.classList.remove('animate-pulse', 'bg-muted/30', 'rounded', 'shimmer-bg');
mountEl.setAttribute('contenteditable', 'true');
}
})();
(function() {
var dd = document.querySelector('#memo-edit-form-{{ id }} .visibility-dropdown');
if (dd) updateVisUI(dd);
})();
</script>
<div class="flex items-center justify-between px-3 lg:px-4 py-2 border-t border-border">
<div class="flex items-center gap-1">
<div class="relative">
<button type="button" onclick="toggleEmojiPicker()" class="p-1.5 rounded-md text-muted-fg hover:text-foreground hover:bg-muted transition-colors" title="Insert Emoji">
<svg class="w-4 h-4" fill="none" stroke="currentColor" viewBox="0 0 24 24"><path stroke-linecap="round" stroke-linejoin="round" stroke-width="2" d="M14.828 14.828a4 4 0 01-5.656 0M9 10h.01M15 10h.01M21 12a9 9 0 11-18 0 9 9 0 0118 0z"/></svg>
</button>
<div id="emoji-picker" class="hidden absolute top-full left-0 mt-1 bg-card border border-border rounded-xl shadow-xl p-2 z-50 w-[280px] max-w-[calc(100vw-2rem)] max-h-[200px] overflow-y-auto">
<div id="emoji-grid" class="grid grid-cols-7 gap-0.5 text-lg"></div>
</div>
</div>
<div class="relative">
<button type="button" onclick="togglePlusMenu()" class="p-1.5 rounded-md text-muted-fg hover:text-foreground hover:bg-muted transition-colors" title="More">
<svg class="w-4 h-4" fill="none" stroke="currentColor" viewBox="0 0 24 24"><path stroke-linecap="round" stroke-linejoin="round" stroke-width="2" d="M12 4v16m8-8H4"/></svg>
</button>
<div id="plus-menu" class="hidden absolute top-full left-0 mt-1 bg-card border border-border rounded-xl shadow-xl py-1 z-50 min-w-[180px] max-w-[calc(100vw-2rem)]">
<button type="button" onclick="uploadImage()" class="flex items-center gap-2 w-full px-3 py-1.5 text-xs text-foreground hover:bg-muted transition-colors">
<span>&#128247;</span> Upload Image
</button>
<button type="button" onclick="uploadFile()" class="flex items-center gap-2 w-full px-3 py-1.5 text-xs text-foreground hover:bg-muted transition-colors">
<span>&#128206;</span> Upload File
</button>
<button type="button" id="record-audio-btn" onclick="toggleAudioRecording()" class="flex items-center gap-2 w-full px-3 py-1.5 text-xs text-foreground hover:bg-muted transition-colors">
<span>&#127908;</span><span id="record-label">Record Audio</span>
</button>
<button type="button" onclick="toggleLinkMemo()" class="flex items-center gap-2 w-full px-3 py-1.5 text-xs text-foreground hover:bg-muted transition-colors">
<span>&#128279;</span> Link Memo
</button>
</div>
<div id="link-memo-dropdown" class="hidden absolute top-full left-0 mt-1 bg-card border border-border rounded-xl shadow-xl z-50 w-[250px]">
<div class="p-2"><input type="text" id="link-memo-search" placeholder="Search notes..." oninput="debouncedLinkSearch(this.value)" class="w-full px-2 py-1.5 text-xs bg-muted border border-border rounded-lg focus:outline-none focus:ring-1 focus:ring-accent-500"></div>
<div id="link-memo-results" class="max-h-[200px] overflow-y-auto"></div>
</div>
</div>
<div class="visibility-dropdown relative edit-vis" data-vis="{{ visibility }}"{% if has_password %} data-has-password="true"{% endif %}>
<button type="button" onclick="event.stopPropagation(); toggleVisDropdown(this)" class="flex items-center gap-1 px-1.5 py-1 rounded-md text-muted-fg hover:text-foreground hover:bg-muted transition-colors text-xs">
<span class="vis-label flex items-center gap-1"><svg class="w-3.5 h-3.5" fill="none" stroke="currentColor" viewBox="0 0 24 24"><path stroke-linecap="round" stroke-linejoin="round" stroke-width="2" d="M16 7a4 4 0 11-8 0 4 4 0 018 0zM12 14a7 7 0 00-7 7h14a7 7 0 00-7-7z"/></svg>Private</span>
<svg class="w-3 h-3" fill="none" stroke="currentColor" viewBox="0 0 24 24"><path stroke-linecap="round" stroke-linejoin="round" stroke-width="2" d="M19 9l-7 7-7-7"/></svg>
</button>
<div class="vis-dropdown-menu hidden absolute top-full left-0 mt-1 bg-card border border-border rounded-lg shadow-lg py-1 min-w-[140px] z-50">
<button type="button" data-vis-value="public" onclick="selectVis(this)" class="flex items-center gap-2 w-full px-3 py-1.5 text-xs text-foreground hover:bg-muted transition-colors">
<svg class="w-3.5 h-3.5" fill="none" stroke="currentColor" viewBox="0 0 24 24"><path stroke-linecap="round" stroke-linejoin="round" stroke-width="2" d="M3.055 11H5a2 2 0 012 2v1a2 2 0 002 2 2 2 0 012 2v2.945M8 3.935V5.5A2.5 2.5 0 0010.5 8h.5a2 2 0 012 2 2 2 0 104 0 2 2 0 012-2h1.064M15 20.488V18a2 2 0 012-2h3.064M21 12a9 9 0 11-18 0 9 9 0 0118 0z"/></svg>
Public
</button>
<button type="button" data-vis-value="protected" onclick="selectVis(this)" class="flex items-center gap-2 w-full px-3 py-1.5 text-xs text-foreground hover:bg-muted transition-colors">
<svg class="w-3.5 h-3.5" fill="none" stroke="currentColor" viewBox="0 0 24 24"><rect x="3" y="11" width="18" height="11" rx="2" stroke-width="2"/><path d="M7 11V7a5 5 0 0110 0v4" stroke-width="2"/></svg>
Protected{% if has_password %} <span class="text-[10px] text-green-600 dark:text-green-400 ml-1">✓ Set</span>{% endif %}
</button>
<button type="button" data-vis-value="private" onclick="selectVis(this)" class="flex items-center gap-2 w-full px-3 py-1.5 text-xs text-foreground hover:bg-muted transition-colors">
<svg class="w-3.5 h-3.5" fill="none" stroke="currentColor" viewBox="0 0 24 24"><path stroke-linecap="round" stroke-linejoin="round" stroke-width="2" d="M16 7a4 4 0 11-8 0 4 4 0 018 0zM12 14a7 7 0 00-7 7h14a7 7 0 00-7-7z"/></svg>
Private
</button>
</div>
<input type="hidden" name="visibility" value="{{ visibility }}">
<input type="hidden" name="visibility_password" value="">
</div>
<span class="text-xs text-muted-fg hidden lg:inline">Ctrl+Enter</span>
</div>
<div class="flex items-center gap-2">
<button type="button" onclick="cancelEdit({{ id }})"
class="py-1.5 px-4 bg-transparent hover:bg-muted text-foreground text-sm font-medium rounded-lg transition-colors">
Cancel
</button>
<button type="submit" id="save-memo-edit-btn-{{ id }}" disabled
class="py-1.5 px-4 bg-accent-600 hover:bg-accent-700 text-white text-sm font-medium rounded-lg transition-colors focus:outline-none focus:ring-2 focus:ring-accent-500 disabled:opacity-50 disabled:cursor-not-allowed disabled:hover:bg-accent-600">
Save
</button>
</div>
</div>
{% if has_password %}
<div class="px-4 pb-2 -mt-1">
<div class="border border-dashed border-border rounded-lg p-3">
<p class="text-xs text-muted-fg mb-2">This note is password-protected.</p>
<button type="button" onclick="showVisPwdModal(true)"
class="text-xs font-medium text-accent-600 hover:text-accent-700 dark:text-accent-400 dark:hover:text-accent-300 transition-colors">Change Password</button>
</div>
</div>
{% endif %}
</div>
</form>